//! What holds of the lists in reports on memory accesses: what they are ordered
//! by, what they count, and that nothing is missing.
use crate::c2c::address;
use crate::c2c::classes;
use crate::c2c::classes::{
    ClassOrder, Classifier, Condition, Cpu, Feature, PhysicalLine, Pid, ThreadName, Tid, VirtualLine,
};
use crate::c2c::detail;
use crate::c2c::detail::{
    C2cAccessSiteDetailRequest, C2cAccessSiteDetailResult, C2cCachelineDetailRequest,
    C2cCachelineDetailResult, C2cCpuBreakdownRow, C2cThreadBreakdownRow,
};
use crate::c2c::filter;
use crate::c2c::filter::{
    ByAccess, ByCpu, ByLevel, ByOffset, ByProcessLine, ByRegion, BySource, ByThread, Called,
    InRegion,
};
use crate::c2c::laws;
use crate::c2c::orders;
use crate::c2c::orders::{
    AccessOrder, Hottest, HottestCpu, HottestLine, HottestOffset, LevelOrder, RegionOrder,
    SiteOrder, SiteSort, SourceOrder,
};
use crate::c2c::rows;
use crate::c2c::rows::{
    C2cCachelineStats, C2cCallchainRow, C2cDataMappingRow, C2cMemoryLevelRow, C2cOffsetRow,
    C2cProfileSummary,
    C2cRawDataSourceRow, InstructionSymbol, LookupFailure,
};
use crate::c2c::site;
use crate::c2c::site::{ByCallchain, BySite};
use crate::c2c::tools;
use crate::c2c::tools::{C2cTopAccessSitesRequest, C2cTopAccessSitesResult};
use crate::c2c::types;
use crate::c2c::types::{Average, C2cProfile, C2cSample, C2cStats};
use crate::rank;
use crate::sets;
use crate::text;
use vstd::prelude::*;
use vstd::utf8::*;

verus! {

proof fn lemma_member_count<C: Classifier>(
    c: C,
    s: Seq<C2cSample>,
    k: C::Key,
    with: spec_fn(C2cSample) -> bool,
)
    requires
        s.len() <= usize::MAX,
        forall|x: C2cSample| #[trigger] with(x) == (c.key(x) == k),
    ensures
        types::stats_of(classes::class_of(c, s, k)).samples == types::count_of(s, with),
{
    let class = classes::class_of(c, s, k);
    let any = |x: C2cSample| true;
    laws::lemma_class_counts(c, s, k, any, with);
    laws::lemma_all_count(class, any);
    laws::lemma_class_len(c, s, k);
    types::law_stats_count_accesses(class);
}

proof fn lemma_plain_ascending(a: int, b: int)
    requires
        i128::MIN <= a <= i128::MAX,
        i128::MIN <= b <= i128::MAX,
        a < b,
    ensures
        rank::lex_before(rank::ascending(a), rank::ascending(b)),
{
    let none = Seq::<i128>::empty();
    rank::lemma_ascending_leads(a, b, none, none);
    assert(rank::ascending(a) + none =~= rank::ascending(a));
    assert(rank::ascending(b) + none =~= rank::ascending(b));
}

proof fn lemma_plain_textual(a: Seq<char>, b: Seq<char>)
    requires
        rank::spelled_before(encode_utf8(a), encode_utf8(b)),
    ensures
        rank::lex_before(rank::textual(a), rank::textual(b)),
{
    let none = Seq::<i128>::empty();
    rank::lemma_textual_leads(a, b, none, none);
    assert(rank::textual(a) + none =~= rank::textual(a));
    assert(rank::textual(b) + none =~= rank::textual(b));
}

/// Whether counts show more contention than others: more hits on modified
/// lines, or as many and more locked accesses, or as many of both and more
/// samples.
pub open spec fn hotter(a: C2cCachelineStats, b: C2cCachelineStats) -> bool {
    a.total_hitm > b.total_hitm || (a.total_hitm == b.total_hitm && (a.locked > b.locked || (
    a.locked == b.locked && a.samples > b.samples)))
}

/// Whether counts show as much contention as others.
pub open spec fn as_hot(a: C2cCachelineStats, b: C2cCachelineStats) -> bool {
    a.total_hitm == b.total_hitm && a.locked == b.locked && a.samples == b.samples
}

proof fn lemma_heat(a: C2cStats, b: C2cStats, u: Seq<i128>, v: Seq<i128>)
    ensures
        hotter(rows::stats_row(a), rows::stats_row(b)) ==> rank::lex_before(
            orders::heat(a) + u,
            orders::heat(b) + v,
        ),
        as_hot(rows::stats_row(a), rows::stats_row(b)) && rank::lex_before(u, v)
            ==> rank::lex_before(orders::heat(a) + u, orders::heat(b) + v),
{
    let sa = rank::descending(a.samples as int) + u;
    let sb = rank::descending(b.samples as int) + v;
    rank::lemma_descending_leads(a.samples as int, b.samples as int, u, v);
    rank::lemma_descending_leads(a.locked as int, b.locked as int, sa, sb);
    let la = rank::descending(a.locked as int) + sa;
    let lb = rank::descending(b.locked as int) + sb;
    rank::lemma_descending_leads(a.hitm() as int, b.hitm() as int, la, lb);
    assert(orders::heat(a) + u =~= rank::descending(a.hitm() as int) + la);
    assert(orders::heat(b) + v =~= rank::descending(b.hitm() as int) + lb);
}

/// Counts as they are reported are the numbers of accesses of each kind.
pub proof fn law_reported_counts(s: Seq<C2cSample>)
    requires
        s.len() <= usize::MAX,
    ensures
        ({
            let r = rows::stats_row(types::stats_of(s));
            &&& r.samples == s.len()
            &&& r.loads == types::count_of(s, |x: C2cSample| x.data_source.loads())
            &&& r.stores == types::count_of(s, |x: C2cSample| x.data_source.stores())
            &&& r.total_hitm == types::count_of(s, |x: C2cSample| x.data_source.hitm())
            &&& r.local_hitm == types::count_of(
                s,
                |x: C2cSample| x.data_source.hitm() && !x.data_source.remote(),
            )
            &&& r.remote_hitm == types::count_of(
                s,
                |x: C2cSample| x.data_source.hitm() && x.data_source.remote(),
            )
            &&& r.total_peer == types::count_of(s, |x: C2cSample| x.data_source.peer())
            &&& r.local_peer == types::count_of(
                s,
                |x: C2cSample| x.data_source.peer() && !x.data_source.remote(),
            )
            &&& r.remote_peer == types::count_of(
                s,
                |x: C2cSample| x.data_source.peer() && x.data_source.remote(),
            )
            &&& r.locked == types::count_of(s, |x: C2cSample| x.data_source.locked())
            &&& r.exact_ip_samples == types::count_of(s, |x: C2cSample| x.exact_ip)
            &&& r.exact_ip_samples + r.non_exact_ip_samples == s.len()
            &&& r.non_unit_weight_samples == types::count_of(s, |x: C2cSample| x.weight != 1)
            &&& r.average_weight.count == s.len()
            &&& r.average_weight.sum == laws::total_of(s, |x: C2cSample| x.weight as int)
            &&& r.instruction_latency_samples == types::count_of(
                s,
                |x: C2cSample| x.instruction_latency is Some,
            )
            &&& r.instruction_latency_samples == 0 <==> r.average_instruction_latency is None
            &&& r.average_instruction_latency matches Some(average) ==> average.count
                == r.instruction_latency_samples && average.sum == laws::total_of(
                s,
                |x: C2cSample|
                    if x.instruction_latency is Some {
                        x.instruction_latency->0 as int
                    } else {
                        0
                    },
            )
        }),
{
    types::law_stats_count_accesses(s);
    laws::law_stats_add_up_accesses(s);
    types::lemma_count_bounds(s, |x: C2cSample| x.exact_ip);
}

proof fn lemma_member_hitm<C: Classifier>(
    c: C,
    s: Seq<C2cSample>,
    k: C::Key,
    with: spec_fn(C2cSample) -> bool,
)
    requires
        s.len() <= usize::MAX,
        forall|x: C2cSample| #[trigger] with(x) == (c.key(x) == k && x.data_source.hitm()),
    ensures
        types::stats_of(classes::class_of(c, s, k)).hitm() == types::count_of(s, with),
{
    let class = classes::class_of(c, s, k);
    laws::lemma_class_counts(c, s, k, |x: C2cSample| x.data_source.hitm(), with);
    laws::lemma_class_len(c, s, k);
    types::law_stats_count_accesses(class);
}

proof fn lemma_offset(a: u64, size: u64)
    requires
        size > 0,
    ensures
        filter::offset_in(a, size) == a % size,
{
    assert(0 <= a % size <= a) by (nonlinear_arith)
        requires
            size > 0,
    ;
}

/// Memory levels fall in samples, and those with as many stand in the order of
/// their names. Each counts the accesses whose data came from it, and the level
/// of every access is there.
pub proof fn law_levels_fall(report: Seq<C2cMemoryLevelRow>, s: Seq<C2cSample>)
    requires
        rows::level_rows(report, s),
        s.len() <= usize::MAX,
    ensures
        forall|i: int, j: int|
            #![trigger report[i], report[j]]
            0 <= i < j < report.len() ==> {
                let a = report[i];
        let b = report[j];
                a.stats.samples > b.stats.samples || (a.stats.samples == b.stats.samples
                    && !rank::spelled_before(
                    encode_utf8(b.memory_level@),
                    encode_utf8(a.memory_level@),
                ))
            },
        forall|i: int|
            #![trigger report[i]]
            0 <= i < report.len() ==> {
                let row = report[i];
                row.stats.samples == types::count_of(s, |x: C2cSample| x.data_source.level_text() == row.memory_level@)
            },
        ({
            forall|k: int|
                #![trigger s[k]]
                0 <= k < s.len() ==> exists|i: int|
                #![trigger report[i]]
                0 <= i < report.len() && {
                    let row = report[i];
                    let y = s[k];
                    row.memory_level@ == y.data_source.level_text()
                }
        }),
{
    let c = ByLevel;
    let o = LevelOrder;
    let list = rows::level_classes(s);
    let better = |a: Seq<C2cSample>, b: Seq<C2cSample>| {
            let x = types::stats_of(a);
            let y = types::stats_of(b);
            x.samples > y.samples || (x.samples == y.samples && rank::spelled_before(
                encode_utf8(a[0].data_source.level_text()),
                encode_utf8(b[0].data_source.level_text()),
            ))
        };
    assert forall|a: Seq<C2cSample>, b: Seq<C2cSample>|
        a.len() > 0 && b.len() > 0 && #[trigger] better(a, b) implies rank::lex_before(
        o.key(a),
        o.key(b),
    ) by {
        let x = types::stats_of(a);
        let y = types::stats_of(b);
        if x.samples == y.samples {
            lemma_plain_textual(a[0].data_source.level_text(), b[0].data_source.level_text());
        }
        rank::lemma_descending_leads(
            x.samples as int,
            y.samples as int,
            rank::textual(a[0].data_source.level_text()),
            rank::textual(b[0].data_source.level_text()),
        );
    }
    laws::lemma_ordered_classes(c, o, s, better);
    assert forall|i: int, j: int|
        #![trigger report[i], report[j]]
        0 <= i < j < report.len() implies {
        let a = report[i];
        let b = report[j];
                a.stats.samples > b.stats.samples || (a.stats.samples == b.stats.samples
                    && !rank::spelled_before(
                    encode_utf8(b.memory_level@),
                    encode_utf8(a.memory_level@),
                ))
    } by {
        assert(report[i].stats == rows::stats_row(types::stats_of(rows::level_classes(s)[i])));
        assert(report[j].stats == rows::stats_row(types::stats_of(rows::level_classes(s)[j])));
        assert(!better(list[j], list[i]));
    }
    assert forall|i: int|
        #![trigger report[i]]
        0 <= i < report.len() implies {
        let row = report[i];
        row.stats.samples == types::count_of(s, |x: C2cSample| x.data_source.level_text() == row.memory_level@)
    } by {
        let row = report[i];
        assert(report[i].stats == rows::stats_row(types::stats_of(rows::level_classes(s)[i])));
        assert(list[i] == classes::class_of(c, s, c.key(list[i][0])));
        lemma_member_count(c, s, c.key(list[i][0]), |x: C2cSample| x.data_source.level_text() == row.memory_level@);
    }
    assert forall|k: int|
        #![trigger s[k]]
        0 <= k < s.len() implies exists|i: int|
                #![trigger report[i]]
                0 <= i < report.len() && {
                    let row = report[i];
                    let y = s[k];
                    row.memory_level@ == y.data_source.level_text()
                } by {
        let y = s[k];
        let class = classes::class_of(c, s, c.key(s[k]));
        laws::lemma_class_key(c, s, c.key(s[k]));
        let i = choose|i: int| 0 <= i < list.len() && list[i] == class;
        assert(report[i].stats == rows::stats_row(types::stats_of(rows::level_classes(s)[i])));
        assert(c.key(list[i][0]) == c.key(y));
        let row = report[i];
        assert(row.memory_level@ == y.data_source.level_text());
    }
}

/// Data sources fall in samples, and those with as many rise in value. Each
/// counts the accesses with it, and the source of every access is there.
pub proof fn law_data_sources_fall(report: Seq<C2cRawDataSourceRow>, s: Seq<C2cSample>)
    requires
        rows::source_rows(report, s),
        s.len() <= usize::MAX,
    ensures
        forall|i: int, j: int|
            #![trigger report[i], report[j]]
            0 <= i < j < report.len() ==> {
                let a = report[i];
        let b = report[j];
                a.stats.samples > b.stats.samples || (a.stats.samples == b.stats.samples
                    && address::address_in(a.raw_data_source@)->Ok_0 <= address::address_in(
                    b.raw_data_source@,
                )->Ok_0)
            },
        forall|i: int|
            #![trigger report[i]]
            0 <= i < report.len() ==> {
                let row = report[i];
                row.stats.samples == types::count_of(s, |x: C2cSample| address::address_in(row.raw_data_source@) == Ok::<u64, Seq<char>>(x.data_source.raw))
            },
        ({
            forall|k: int|
                #![trigger s[k]]
                0 <= k < s.len() ==> exists|i: int|
                #![trigger report[i]]
                0 <= i < report.len() && {
                    let row = report[i];
                    let y = s[k];
                    row.raw_data_source@ == text::hex_text(y.data_source.raw as int)
                }
        }),
{
    let c = BySource;
    let o = SourceOrder;
    let list = rows::source_classes(s);
    let better = |a: Seq<C2cSample>, b: Seq<C2cSample>| {
            let x = types::stats_of(a);
            let y = types::stats_of(b);
            x.samples > y.samples || (x.samples == y.samples && a[0].data_source.raw
                < b[0].data_source.raw)
        };
    assert forall|a: Seq<C2cSample>, b: Seq<C2cSample>|
        a.len() > 0 && b.len() > 0 && #[trigger] better(a, b) implies rank::lex_before(
        o.key(a),
        o.key(b),
    ) by {
        let x = types::stats_of(a);
        let y = types::stats_of(b);
        if x.samples == y.samples {
            lemma_plain_ascending(a[0].data_source.raw as int, b[0].data_source.raw as int);
        }
        rank::lemma_descending_leads(
            x.samples as int,
            y.samples as int,
            rank::ascending(a[0].data_source.raw as int),
            rank::ascending(b[0].data_source.raw as int),
        );
    }
    laws::lemma_ordered_classes(c, o, s, better);
    assert forall|i: int, j: int|
        #![trigger report[i], report[j]]
        0 <= i < j < report.len() implies {
        let a = report[i];
        let b = report[j];
                a.stats.samples > b.stats.samples || (a.stats.samples == b.stats.samples
                    && address::address_in(a.raw_data_source@)->Ok_0 <= address::address_in(
                    b.raw_data_source@,
                )->Ok_0)
    } by {
        assert(rows::source_row(report[i], rows::source_classes(s)[i]));
        assert(rows::source_row(report[j], rows::source_classes(s)[j]));
        assert(!better(list[j], list[i]));
        address::law_written_addresses_are_read(rows::source_classes(s)[i][0].data_source.raw);
        address::law_written_addresses_are_read(rows::source_classes(s)[j][0].data_source.raw);
    }
    assert forall|i: int|
        #![trigger report[i]]
        0 <= i < report.len() implies {
        let row = report[i];
        row.stats.samples == types::count_of(s, |x: C2cSample| address::address_in(row.raw_data_source@) == Ok::<u64, Seq<char>>(x.data_source.raw))
    } by {
        let row = report[i];
        assert(rows::source_row(report[i], rows::source_classes(s)[i]));
        assert(list[i] == classes::class_of(c, s, c.key(list[i][0])));
        address::law_written_addresses_are_read(rows::source_classes(s)[i][0].data_source.raw);
        lemma_member_count(c, s, c.key(list[i][0]), |x: C2cSample| address::address_in(row.raw_data_source@) == Ok::<u64, Seq<char>>(x.data_source.raw));
    }
    assert forall|k: int|
        #![trigger s[k]]
        0 <= k < s.len() implies exists|i: int|
                #![trigger report[i]]
                0 <= i < report.len() && {
                    let row = report[i];
                    let y = s[k];
                    row.raw_data_source@ == text::hex_text(y.data_source.raw as int)
                } by {
        let y = s[k];
        let class = classes::class_of(c, s, c.key(s[k]));
        laws::lemma_class_key(c, s, c.key(s[k]));
        let i = choose|i: int| 0 <= i < list.len() && list[i] == class;
        assert(rows::source_row(report[i], rows::source_classes(s)[i]));
        assert(c.key(list[i][0]) == c.key(y));
        let row = report[i];
        assert(row.raw_data_source@ == text::hex_text(y.data_source.raw as int));
    }
}

/// Offsets in cache lines fall in contention, and those with as much rise. Each
/// counts the accesses at it, and the offset of every access is there.
pub proof fn law_offsets_fall(report: Seq<C2cOffsetRow>, s: Seq<C2cSample>, size: u64)
    requires
        rows::offset_rows(report, s, size),
        size > 0,
        s.len() <= usize::MAX,
    ensures
        forall|i: int, j: int|
            #![trigger report[i], report[j]]
            0 <= i < j < report.len() ==> {
                let a = report[i];
        let b = report[j];
                hotter(a.stats, b.stats) || (as_hot(a.stats, b.stats) && a.offset <= b.offset)
            },
        forall|i: int|
            #![trigger report[i]]
            0 <= i < report.len() ==> {
                let row = report[i];
                row.stats.samples == types::count_of(s, |x: C2cSample| x.data_address % size == row.offset)
            },
        ({
            forall|k: int|
                #![trigger s[k]]
                0 <= k < s.len() ==> exists|i: int|
                #![trigger report[i]]
                0 <= i < report.len() && {
                    let row = report[i];
                    let y = s[k];
                    row.offset == y.data_address % size
                }
        }),
{
    let c = ByOffset { size };
    let o = HottestOffset { size };
    let list = rows::offset_classes(s, size);
    let better = |a: Seq<C2cSample>, b: Seq<C2cSample>| {
            let x = rows::stats_row(types::stats_of(a));
            let y = rows::stats_row(types::stats_of(b));
            hotter(x, y) || (as_hot(x, y) && filter::offset_in(a[0].data_address, size)
                < filter::offset_in(b[0].data_address, size))
        };
    assert forall|x: u64| #[trigger] filter::offset_in(x, size) == x % size by {
        lemma_offset(x, size);
    }
    assert forall|a: Seq<C2cSample>, b: Seq<C2cSample>|
        a.len() > 0 && b.len() > 0 && #[trigger] better(a, b) implies rank::lex_before(
        o.key(a),
        o.key(b),
    ) by {
        let x = types::stats_of(a);
        let y = types::stats_of(b);
        if as_hot(rows::stats_row(x), rows::stats_row(y)) {
            lemma_plain_ascending(
                filter::offset_in(a[0].data_address, size) as int,
                filter::offset_in(b[0].data_address, size) as int,
            );
        }
        lemma_heat(
            x,
            y,
            rank::ascending(filter::offset_in(a[0].data_address, size) as int),
            rank::ascending(filter::offset_in(b[0].data_address, size) as int),
        );
    }
    laws::lemma_ordered_classes(c, o, s, better);
    assert forall|i: int, j: int|
        #![trigger report[i], report[j]]
        0 <= i < j < report.len() implies {
        let a = report[i];
        let b = report[j];
                hotter(a.stats, b.stats) || (as_hot(a.stats, b.stats) && a.offset <= b.offset)
    } by {
        assert(rows::offset_row(report[i], rows::offset_classes(s, size)[i], size));
        assert(rows::offset_row(report[j], rows::offset_classes(s, size)[j], size));
        assert(!better(list[j], list[i]));
    }
    assert forall|i: int|
        #![trigger report[i]]
        0 <= i < report.len() implies {
        let row = report[i];
        row.stats.samples == types::count_of(s, |x: C2cSample| x.data_address % size == row.offset)
    } by {
        let row = report[i];
        assert(rows::offset_row(report[i], rows::offset_classes(s, size)[i], size));
        assert(list[i] == classes::class_of(c, s, c.key(list[i][0])));
        assert forall|x: C2cSample| (#[trigger] x.data_address) % size == filter::offset_in(
            x.data_address,
            size,
        ) by {
            lemma_offset(x.data_address, size);
        }
        lemma_member_count(c, s, c.key(list[i][0]), |x: C2cSample| x.data_address % size == row.offset);
    }
    assert forall|k: int|
        #![trigger s[k]]
        0 <= k < s.len() implies exists|i: int|
                #![trigger report[i]]
                0 <= i < report.len() && {
                    let row = report[i];
                    let y = s[k];
                    row.offset == y.data_address % size
                } by {
        let y = s[k];
        let class = classes::class_of(c, s, c.key(s[k]));
        laws::lemma_class_key(c, s, c.key(s[k]));
        let i = choose|i: int| 0 <= i < list.len() && list[i] == class;
        assert(rows::offset_row(report[i], rows::offset_classes(s, size)[i], size));
        assert(c.key(list[i][0]) == c.key(y));
        let row = report[i];
        assert(row.offset == y.data_address % size);
    }
}

/// Recorded regions fall in samples, those with as many stand in the order of
/// their paths, and then of their starts. Each counts the accesses to it, and
/// the region of every access that has one is there.
pub proof fn law_regions_fall(report: Seq<C2cDataMappingRow>, all: Seq<C2cSample>)
    requires
        rows::region_rows(report, all),
        all.len() <= usize::MAX,
    ensures
        forall|i: int, j: int|
            #![trigger report[i], report[j]]
            0 <= i < j < report.len() ==> {
                let a = report[i];
        let b = report[j];
                a.stats.samples > b.stats.samples || (a.stats.samples == b.stats.samples
                    && !rank::spelled_before(encode_utf8(b.path@), encode_utf8(a.path@)) && (a.path@
                    == b.path@ ==> address::address_in(a.mapping_start@)->Ok_0
                    <= address::address_in(b.mapping_start@)->Ok_0))
            },
        forall|i: int|
            #![trigger report[i]]
            0 <= i < report.len() ==> {
                let row = report[i];
                row.stats.samples == types::count_of(classes::chosen(InRegion, all), |x: C2cSample| {
                    &&& x.mapped_data_address matches Some(m) && m.path@ == row.path@
                        && row.mapping_start@ == text::hex_text(m.mapping_start as int)
                        && row.mapping_end@ == text::hex_text(m.mapping_end as int)
                        && row.page_offset@ == text::hex_text(m.page_offset as int)
                        && types::opt_shared(m.build_id) == text::opt(row.build_id)
                })
            },
        ({
            let s = classes::chosen(InRegion, all);
            forall|k: int|
                #![trigger s[k]]
                0 <= k < s.len() ==> exists|i: int|
                #![trigger report[i]]
                0 <= i < report.len() && {
                    let row = report[i];
                    let y = s[k];
                    y.mapped_data_address matches Some(m) && m.path@ == row.path@ && row.mapping_start@
                        == text::hex_text(m.mapping_start as int)
                }
        }),
{
    let s = classes::chosen(InRegion, all);
    let c = ByRegion;
    let o = RegionOrder;
    let list = rows::region_classes(all);
    let better = |a: Seq<C2cSample>, b: Seq<C2cSample>| {
            let x = types::stats_of(a);
            let y = types::stats_of(b);
            let m = filter::region_of(a[0].mapped_data_address);
            let n = filter::region_of(b[0].mapped_data_address);
            x.samples > y.samples || (x.samples == y.samples && m is Some && n is Some && (
            rank::spelled_before(encode_utf8(m->0.path), encode_utf8(n->0.path)) || (m->0.path
                == n->0.path && m->0.mapping_start < n->0.mapping_start)))
        };
    laws::lemma_chosen_len(InRegion, all);
    laws::lemma_chosen(InRegion, all);
    assert forall|a: Seq<C2cSample>, b: Seq<C2cSample>|
        a.len() > 0 && b.len() > 0 && #[trigger] better(a, b) implies rank::lex_before(
        o.key(a),
        o.key(b),
    ) by {
        let x = types::stats_of(a);
        let y = types::stats_of(b);
        let m = filter::region_of(a[0].mapped_data_address);
        let n = filter::region_of(b[0].mapped_data_address);
        let u = match m {
            Some(m) => rank::textual(m.path) + rank::ascending(m.mapping_start as int),
            None => Seq::empty(),
        };
        let v = match n {
            Some(n) => rank::textual(n.path) + rank::ascending(n.mapping_start as int),
            None => Seq::empty(),
        };
        if x.samples == y.samples {
            if m->0.path == n->0.path {
                if m->0.mapping_start < n->0.mapping_start {
                    lemma_plain_ascending(m->0.mapping_start as int, n->0.mapping_start as int);
                }
            }
            rank::lemma_textual_leads(
                m->0.path,
                n->0.path,
                rank::ascending(m->0.mapping_start as int),
                rank::ascending(n->0.mapping_start as int),
            );
        }
        rank::lemma_descending_leads(x.samples as int, y.samples as int, u, v);
    }
    laws::lemma_ordered_classes(c, o, s, better);
    assert forall|i: int, j: int|
        #![trigger report[i], report[j]]
        0 <= i < j < report.len() implies {
        let a = report[i];
        let b = report[j];
                a.stats.samples > b.stats.samples || (a.stats.samples == b.stats.samples
                    && !rank::spelled_before(encode_utf8(b.path@), encode_utf8(a.path@)) && (a.path@
                    == b.path@ ==> address::address_in(a.mapping_start@)->Ok_0
                    <= address::address_in(b.mapping_start@)->Ok_0))
    } by {
        assert(rows::region_row(report[i], rows::region_classes(all)[i]));
        assert(rows::region_row(report[j], rows::region_classes(all)[j]));
        assert(!better(list[j], list[i]));
        let m = filter::region_of(rows::region_classes(all)[i][0].mapped_data_address)->0;
        let n = filter::region_of(rows::region_classes(all)[j][0].mapped_data_address)->0;
        address::law_written_addresses_are_read(m.mapping_start);
        address::law_written_addresses_are_read(n.mapping_start);
    }
    assert forall|i: int|
        #![trigger report[i]]
        0 <= i < report.len() implies {
        let row = report[i];
        row.stats.samples == types::count_of(s, |x: C2cSample| {
                    &&& x.mapped_data_address matches Some(m) && m.path@ == row.path@
                        && row.mapping_start@ == text::hex_text(m.mapping_start as int)
                        && row.mapping_end@ == text::hex_text(m.mapping_end as int)
                        && row.page_offset@ == text::hex_text(m.page_offset as int)
                        && types::opt_shared(m.build_id) == text::opt(row.build_id)
                })
    } by {
        let row = report[i];
        assert(rows::region_row(report[i], rows::region_classes(all)[i]));
        assert(list[i] == classes::class_of(c, s, c.key(list[i][0])));
        let m = filter::region_of(rows::region_classes(all)[i][0].mapped_data_address)->0;
        address::law_written_addresses_are_read(m.mapping_start);
        address::law_written_addresses_are_read(m.mapping_end);
        address::law_written_addresses_are_read(m.page_offset);
        assert forall|x: C2cSample| c.key(x) == Some(m) <==> ({
            &&& #[trigger] x.mapped_data_address matches Some(d) && d.path@ == row.path@
                && row.mapping_start@ == text::hex_text(d.mapping_start as int)
                && row.mapping_end@ == text::hex_text(d.mapping_end as int)
                && row.page_offset@ == text::hex_text(d.page_offset as int)
                && types::opt_shared(d.build_id) == text::opt(row.build_id)
        }) by {
            if let Some(d) = filter::region_of(x.mapped_data_address) {
                address::law_written_addresses_are_read(d.mapping_start);
                address::law_written_addresses_are_read(d.mapping_end);
                address::law_written_addresses_are_read(d.page_offset);
                if d.path == m.path && d.mapping_start == m.mapping_start && d.mapping_end
                    == m.mapping_end && d.page_offset == m.page_offset && d.build_id
                    == m.build_id {
                    assert(d =~= m);
                }
            }
        }
        lemma_member_count(c, s, c.key(list[i][0]), |x: C2cSample| {
                    &&& x.mapped_data_address matches Some(m) && m.path@ == row.path@
                        && row.mapping_start@ == text::hex_text(m.mapping_start as int)
                        && row.mapping_end@ == text::hex_text(m.mapping_end as int)
                        && row.page_offset@ == text::hex_text(m.page_offset as int)
                        && types::opt_shared(m.build_id) == text::opt(row.build_id)
                });
    }
    assert forall|k: int|
        #![trigger s[k]]
        0 <= k < s.len() implies exists|i: int|
                #![trigger report[i]]
                0 <= i < report.len() && {
                    let row = report[i];
                    let y = s[k];
                    y.mapped_data_address matches Some(m) && m.path@ == row.path@ && row.mapping_start@
                        == text::hex_text(m.mapping_start as int)
                } by {
        let y = s[k];
        let class = classes::class_of(c, s, c.key(s[k]));
        laws::lemma_class_key(c, s, c.key(s[k]));
        let i = choose|i: int| 0 <= i < list.len() && list[i] == class;
        assert(rows::region_row(report[i], rows::region_classes(all)[i]));
        assert(c.key(list[i][0]) == c.key(y));
        let row = report[i];
        assert(y.mapped_data_address matches Some(m) && m.path@ == row.path@ && row.mapping_start@
                        == text::hex_text(m.mapping_start as int));
    }
}

/// Threads fall in contention. Each counts the accesses of the thread, and the
/// thread of every access is there, unless the list is full of threads with no
/// fewer hits on modified lines.
pub proof fn law_threads_fall(report: Seq<C2cThreadBreakdownRow>, s: Seq<C2cSample>, size: u64, limit: usize)
    requires
        detail::thread_rows(report, s, size, limit),
        s.len() <= usize::MAX,
    ensures
        forall|i: int, j: int|
            #![trigger report[i], report[j]]
            0 <= i < j < report.len() ==> {
                let a = report[i];
        let b = report[j];
                !hotter(b.stats, a.stats)
            },
        forall|i: int|
            #![trigger report[i]]
            0 <= i < report.len() ==> {
                let row = report[i];
                row.stats.samples == types::count_of(s, |x: C2cSample| x.pid == row.pid && x.tid == row.tid && x.thread_name@ == row.thread_name@)
            },
        ({
            forall|k: int|
                #![trigger s[k]]
                0 <= k < s.len() ==> (exists|i: int|
                #![trigger report[i]]
                0 <= i < report.len() && {
                    let row = report[i];
                    let y = s[k];
                    row.pid == y.pid && row.tid == y.tid && row.thread_name@ == y.thread_name@
                }) || ((report.len() == limit || report.len() == 1000) && forall|i: int|
                #![trigger report[i]]
                0 <= i < report.len() ==> report[i].stats.total_hitm >= types::count_of(
                    s,
                    |x: C2cSample| x.data_source.hitm() && x.pid == s[k].pid && x.tid == s[k].tid && x.thread_name@ == s[k].thread_name@,
                ))
        }),
{
    let c = ByThread;
    let o = Hottest;
    let list = detail::thread_classes(s, limit);
    let better = |a: Seq<C2cSample>, b: Seq<C2cSample>| hotter(rows::stats_row(types::stats_of(a)), rows::stats_row(types::stats_of(b)));
    assert forall|a: Seq<C2cSample>, b: Seq<C2cSample>|
        a.len() > 0 && b.len() > 0 && #[trigger] better(a, b) implies rank::lex_before(
        o.key(a),
        o.key(b),
    ) by {
        let x = types::stats_of(a);
        let y = types::stats_of(b);
        lemma_heat(x, y, Seq::empty(), Seq::empty());
        assert(orders::heat(x) + Seq::<i128>::empty() =~= orders::heat(x));
        assert(orders::heat(y) + Seq::<i128>::empty() =~= orders::heat(y));
    }
    laws::lemma_limited_classes(c, o, s, limit, better);
    assert forall|i: int, j: int|
        #![trigger report[i], report[j]]
        0 <= i < j < report.len() implies {
        let a = report[i];
        let b = report[j];
                !hotter(b.stats, a.stats)
    } by {
        assert(detail::thread_row(report[i], detail::thread_classes(s, limit)[i], size));
        assert(detail::thread_row(report[j], detail::thread_classes(s, limit)[j], size));
        assert(!better(list[j], list[i]));
    }
    assert forall|i: int|
        #![trigger report[i]]
        0 <= i < report.len() implies {
        let row = report[i];
        row.stats.samples == types::count_of(s, |x: C2cSample| x.pid == row.pid && x.tid == row.tid && x.thread_name@ == row.thread_name@)
    } by {
        let row = report[i];
        assert(detail::thread_row(report[i], detail::thread_classes(s, limit)[i], size));
        assert(list[i] == classes::class_of(c, s, c.key(list[i][0])));
        lemma_member_count(c, s, c.key(list[i][0]), |x: C2cSample| x.pid == row.pid && x.tid == row.tid && x.thread_name@ == row.thread_name@);
    }
    assert forall|k: int|
        #![trigger s[k]]
        0 <= k < s.len() implies (exists|i: int|
                #![trigger report[i]]
                0 <= i < report.len() && {
                    let row = report[i];
                    let y = s[k];
                    row.pid == y.pid && row.tid == y.tid && row.thread_name@ == y.thread_name@
                }) || ((report.len() == limit || report.len() == 1000) && forall|i: int|
                #![trigger report[i]]
                0 <= i < report.len() ==> report[i].stats.total_hitm >= types::count_of(
                    s,
                    |x: C2cSample| x.data_source.hitm() && x.pid == s[k].pid && x.tid == s[k].tid && x.thread_name@ == s[k].thread_name@,
                )) by {
        let y = s[k];
        let class = classes::class_of(c, s, c.key(s[k]));
        laws::lemma_class_key(c, s, c.key(s[k]));
        if !list.contains(class) {
            lemma_member_hitm(
                c,
                s,
                c.key(y),
                |x: C2cSample| x.data_source.hitm() && x.pid == s[k].pid && x.tid == s[k].tid && x.thread_name@ == s[k].thread_name@,
            );
            assert forall|i: int|
                #![trigger report[i]]
                0 <= i < report.len() implies report[i].stats.total_hitm >= types::stats_of(class).hitm() by {
                assert(detail::thread_row(report[i], detail::thread_classes(s, limit)[i], size));
                assert(!better(class, list[i]));
            }
        }
        if list.contains(class) {
        let i = choose|i: int| 0 <= i < list.len() && list[i] == class;
        assert(detail::thread_row(report[i], detail::thread_classes(s, limit)[i], size));
        assert(c.key(list[i][0]) == c.key(y));
        let row = report[i];
        assert(row.pid == y.pid && row.tid == y.tid && row.thread_name@ == y.thread_name@);
        }
    }
}

/// CPUs fall in contention, and those with as much rise in number. Each counts
/// the accesses from the CPU, and the CPU of every access is there, unless the
/// list is full of CPUs with no fewer hits on modified lines.
pub proof fn law_cpus_fall(report: Seq<C2cCpuBreakdownRow>, s: Seq<C2cSample>, size: u64, limit: usize)
    requires
        detail::cpu_rows(report, s, size, limit),
        s.len() <= usize::MAX,
    ensures
        forall|i: int, j: int|
            #![trigger report[i], report[j]]
            0 <= i < j < report.len() ==> {
                let a = report[i];
        let b = report[j];
                hotter(a.stats, b.stats) || (as_hot(a.stats, b.stats) && a.cpu <= b.cpu)
            },
        forall|i: int|
            #![trigger report[i]]
            0 <= i < report.len() ==> {
                let row = report[i];
                row.stats.samples == types::count_of(s, |x: C2cSample| x.cpu == row.cpu)
            },
        ({
            forall|k: int|
                #![trigger s[k]]
                0 <= k < s.len() ==> (exists|i: int|
                #![trigger report[i]]
                0 <= i < report.len() && {
                    let row = report[i];
                    let y = s[k];
                    row.cpu == y.cpu
                }) || ((report.len() == limit || report.len() == 1000) && forall|i: int|
                #![trigger report[i]]
                0 <= i < report.len() ==> report[i].stats.total_hitm >= types::count_of(
                    s,
                    |x: C2cSample| x.data_source.hitm() && x.cpu == s[k].cpu,
                ))
        }),
{
    let c = ByCpu;
    let o = HottestCpu;
    let list = detail::cpu_classes(s, limit);
    let better = |a: Seq<C2cSample>, b: Seq<C2cSample>| {
            let x = rows::stats_row(types::stats_of(a));
            let y = rows::stats_row(types::stats_of(b));
            hotter(x, y) || (as_hot(x, y) && a[0].cpu < b[0].cpu)
        };
    assert forall|a: Seq<C2cSample>, b: Seq<C2cSample>|
        a.len() > 0 && b.len() > 0 && #[trigger] better(a, b) implies rank::lex_before(
        o.key(a),
        o.key(b),
    ) by {
        let x = types::stats_of(a);
        let y = types::stats_of(b);
        if as_hot(rows::stats_row(x), rows::stats_row(y)) {
            lemma_plain_ascending(a[0].cpu as int, b[0].cpu as int);
        }
        lemma_heat(
            x,
            y,
            rank::ascending(a[0].cpu as int),
            rank::ascending(b[0].cpu as int),
        );
    }
    laws::lemma_limited_classes(c, o, s, limit, better);
    assert forall|i: int, j: int|
        #![trigger report[i], report[j]]
        0 <= i < j < report.len() implies {
        let a = report[i];
        let b = report[j];
                hotter(a.stats, b.stats) || (as_hot(a.stats, b.stats) && a.cpu <= b.cpu)
    } by {
        assert(detail::cpu_row(report[i], detail::cpu_classes(s, limit)[i], size));
        assert(detail::cpu_row(report[j], detail::cpu_classes(s, limit)[j], size));
        assert(!better(list[j], list[i]));
    }
    assert forall|i: int|
        #![trigger report[i]]
        0 <= i < report.len() implies {
        let row = report[i];
        row.stats.samples == types::count_of(s, |x: C2cSample| x.cpu == row.cpu)
    } by {
        let row = report[i];
        assert(detail::cpu_row(report[i], detail::cpu_classes(s, limit)[i], size));
        assert(list[i] == classes::class_of(c, s, c.key(list[i][0])));
        lemma_member_count(c, s, c.key(list[i][0]), |x: C2cSample| x.cpu == row.cpu);
    }
    assert forall|k: int|
        #![trigger s[k]]
        0 <= k < s.len() implies (exists|i: int|
                #![trigger report[i]]
                0 <= i < report.len() && {
                    let row = report[i];
                    let y = s[k];
                    row.cpu == y.cpu
                }) || ((report.len() == limit || report.len() == 1000) && forall|i: int|
                #![trigger report[i]]
                0 <= i < report.len() ==> report[i].stats.total_hitm >= types::count_of(
                    s,
                    |x: C2cSample| x.data_source.hitm() && x.cpu == s[k].cpu,
                )) by {
        let y = s[k];
        let class = classes::class_of(c, s, c.key(s[k]));
        laws::lemma_class_key(c, s, c.key(s[k]));
        if !list.contains(class) {
            lemma_member_hitm(
                c,
                s,
                c.key(y),
                |x: C2cSample| x.data_source.hitm() && x.cpu == s[k].cpu,
            );
            assert forall|i: int|
                #![trigger report[i]]
                0 <= i < report.len() implies report[i].stats.total_hitm >= types::stats_of(class).hitm() by {
                assert(detail::cpu_row(report[i], detail::cpu_classes(s, limit)[i], size));
                assert(!better(class, list[i]));
            }
        }
        if list.contains(class) {
        let i = choose|i: int| 0 <= i < list.len() && list[i] == class;
        assert(detail::cpu_row(report[i], detail::cpu_classes(s, limit)[i], size));
        assert(c.key(list[i][0]) == c.key(y));
        let row = report[i];
        assert(row.cpu == y.cpu);
        }
    }
}

/// Callchains fall in contention, up to a limit.
pub proof fn law_callchains_fall(
    report: Seq<C2cCallchainRow>,
    s: Seq<C2cSample>,
    limit: usize,
    symbols: Seq<InstructionSymbol>,
)
    requires
        rows::callchain_rows(report, s, limit, symbols),
    ensures
        report.len() <= limit,
        report.len() <= 1000,
        forall|i: int, j: int|
            #![trigger report[i], report[j]]
            0 <= i < j < report.len() ==> {
                let a = report[i];
        let b = report[j];
                a.total_hitm > b.total_hitm || (a.total_hitm == b.total_hitm && (a.locked
                    > b.locked || (a.locked == b.locked && a.samples >= b.samples)))
            },
        forall|k: int|
            #![trigger s[k]]
            0 <= k < s.len() && s[k].callchain@.len() > 0 && limit > 0 ==> report.len() > 0,
{
    let called = classes::chosen(Called, s);
    let list = rows::callchain_classes(s, limit);
    let better = |a: Seq<C2cSample>, b: Seq<C2cSample>|
        hotter(rows::stats_row(types::stats_of(a)), rows::stats_row(types::stats_of(b)));
    lemma_hottest(better);
    laws::lemma_limited_classes(ByCallchain, Hottest, called, limit, better);
    assert forall|i: int, j: int|
        #![trigger report[i], report[j]]
        0 <= i < j < report.len() implies {
        let a = report[i];
        let b = report[j];
        a.total_hitm > b.total_hitm || (a.total_hitm == b.total_hitm && (a.locked > b.locked || (
        a.locked == b.locked && a.samples >= b.samples)))
    } by {
        assert(rows::callchain_row(report[i], list[i], symbols));
        assert(rows::callchain_row(report[j], list[j], symbols));
        assert(!better(list[j], list[i]));
    }
    assert forall|k: int|
        #![trigger s[k]]
        0 <= k < s.len() && s[k].callchain@.len() > 0 && limit > 0 implies report.len() > 0 by {
        laws::lemma_chosen(Called, s);
        assert(Called.holds(s[k]));
        let q = choose|q: int| 0 <= q < called.len() && called[q] == s[k];
        let class = classes::class_of(ByCallchain, called, ByCallchain.key(called[q]));
        assert(list.contains(class) || list.len() > 0);
    }
}

proof fn lemma_hottest(better: spec_fn(Seq<C2cSample>, Seq<C2cSample>) -> bool)
    requires
        forall|a: Seq<C2cSample>, b: Seq<C2cSample>| #[trigger]
            better(a, b) == hotter(
                rows::stats_row(types::stats_of(a)),
                rows::stats_row(types::stats_of(b)),
            ),
    ensures
        forall|a: Seq<C2cSample>, b: Seq<C2cSample>|
            a.len() > 0 && b.len() > 0 && #[trigger] better(a, b) ==> rank::lex_before(
                Hottest.key(a),
                Hottest.key(b),
            ),
{
    assert forall|a: Seq<C2cSample>, b: Seq<C2cSample>|
        a.len() > 0 && b.len() > 0 && #[trigger] better(a, b) implies rank::lex_before(
        Hottest.key(a),
        Hottest.key(b),
    ) by {
        let x = types::stats_of(a);
        let y = types::stats_of(b);
        lemma_heat(x, y, Seq::empty(), Seq::empty());
        assert(orders::heat(x) + Seq::<i128>::empty() =~= orders::heat(x));
        assert(orders::heat(y) + Seq::<i128>::empty() =~= orders::heat(y));
    }
}

/// The cache lines that an access site touches fall in contention, those with
/// as much rise in process and then in address. Where the page is the first and
/// the last, the line of every access of the site is on it. Other instructions
/// on these lines fall in contention, too.
pub proof fn law_touched_lines_fall(
    r: C2cAccessSiteDetailResult,
    p: C2cProfile,
    req: C2cAccessSiteDetailRequest,
    symbols: Seq<InstructionSymbol>,
    failures: Seq<LookupFailure>,
)
    requires
        detail::answers_site_detail(r, p, req, symbols, failures),
    ensures
        forall|i: int, j: int|
            #![trigger r.cachelines@[i], r.cachelines@[j]]
            0 <= i < j < r.cachelines@.len() ==> {
                let a = r.cachelines@[i];
                let b = r.cachelines@[j];
                hotter(a.stats, b.stats) || (as_hot(a.stats, b.stats) && (a.pid < b.pid || (a.pid
                    == b.pid && address::address_in(a.cacheline_address@)->Ok_0
                    <= address::address_in(b.cacheline_address@)->Ok_0)))
            },
        r.cacheline_offset == 0 && r.next_cacheline_offset is None ==> forall|k: int|
            #![trigger req.members(p)[k]]
            0 <= k < req.members(p).len() ==> exists|i: int|
                #![trigger r.cachelines@[i]]
                0 <= i < r.cachelines@.len() && r.cachelines@[i].pid == req.members(p)[k].pid
                    && r.cachelines@[i].cacheline_address@ == text::hex_text(
                    address::aligned(req.members(p)[k].data_address, p.cacheline_size) as int,
                ),
        r.related_access_sites@.len() <= req.related_limit,
        forall|i: int, j: int|
            #![trigger r.related_access_sites@[i], r.related_access_sites@[j]]
            0 <= i < j < r.related_access_sites@.len() ==> !hotter(
                r.related_access_sites@[j].stats,
                r.related_access_sites@[i].stats,
            ),
{
    let size = p.cacheline_size;
    let s = req.members(p);
    let c = ByProcessLine { size };
    let o = HottestLine { size };
    let lines = detail::touched_lines(s, size);
    let start = detail::page_start(lines.len(), req.cacheline_offset);
    let line = |class: Seq<C2cSample>| address::aligned(class[0].data_address, size);
    let better = |a: Seq<C2cSample>, b: Seq<C2cSample>|
        {
            let x = rows::stats_row(types::stats_of(a));
            let y = rows::stats_row(types::stats_of(b));
            hotter(x, y) || (as_hot(x, y) && (a[0].pid < b[0].pid || (a[0].pid == b[0].pid && line(
                a,
            ) < line(b))))
        };
    assert forall|a: Seq<C2cSample>, b: Seq<C2cSample>|
        a.len() > 0 && b.len() > 0 && #[trigger] better(a, b) implies rank::lex_before(
        o.key(a),
        o.key(b),
    ) by {
        let x = types::stats_of(a);
        let y = types::stats_of(b);
        let la = rank::ascending(line(a) as int);
        let lb = rank::ascending(line(b) as int);
        if line(a) < line(b) {
            lemma_plain_ascending(line(a) as int, line(b) as int);
        }
        rank::lemma_ascending_leads(a[0].pid as int, b[0].pid as int, la, lb);
        lemma_heat(
            x,
            y,
            rank::ascending(a[0].pid as int) + la,
            rank::ascending(b[0].pid as int) + lb,
        );
        assert(o.key(a) =~= orders::heat(x) + (rank::ascending(a[0].pid as int) + la));
        assert(o.key(b) =~= orders::heat(y) + (rank::ascending(b[0].pid as int) + lb));
    }
    laws::lemma_ordered_classes(c, o, s, better);
    assert forall|i: int, j: int|
        #![trigger r.cachelines@[i], r.cachelines@[j]]
        0 <= i < j < r.cachelines@.len() implies {
        let a = r.cachelines@[i];
        let b = r.cachelines@[j];
        hotter(a.stats, b.stats) || (as_hot(a.stats, b.stats) && (a.pid < b.pid || (a.pid == b.pid
            && address::address_in(a.cacheline_address@)->Ok_0 <= address::address_in(
            b.cacheline_address@,
        )->Ok_0)))
    } by {
        assert(detail::line_row(r.cachelines@[i], lines[start + i], size));
        assert(detail::line_row(r.cachelines@[j], lines[start + j], size));
        assert(!better(lines[start + j], lines[start + i]));
        address::law_written_addresses_are_read(line(lines[start + i]));
        address::law_written_addresses_are_read(line(lines[start + j]));
    }
    if r.cacheline_offset == 0 && r.next_cacheline_offset is None {
        assert forall|k: int|
            #![trigger s[k]]
            0 <= k < s.len() implies exists|i: int|
            #![trigger r.cachelines@[i]]
            0 <= i < r.cachelines@.len() && r.cachelines@[i].pid == s[k].pid
                && r.cachelines@[i].cacheline_address@ == text::hex_text(
                address::aligned(s[k].data_address, size) as int,
            ) by {
            let class = classes::class_of(c, s, c.key(s[k]));
            laws::lemma_class_key(c, s, c.key(s[k]));
            let i = choose|i: int| 0 <= i < lines.len() && lines[i] == class;
            assert(lines[i].len() > 0);
            assert(c.key(lines[i][0]) == c.key(s[k]));
            assert(detail::line_row(r.cachelines@[i], lines[start + i], size));
        }
    }
    let related = detail::related_in(
        tools::matched(p, req.filter()),
        classes::gathered((VirtualLine { size }), s),
        size,
        req.address(),
        text::opt(req.site_id),
    );
    let others = detail::related_classes(related, req.related_limit);
    let hot = |a: Seq<C2cSample>, b: Seq<C2cSample>|
        hotter(rows::stats_row(types::stats_of(a)), rows::stats_row(types::stats_of(b)));
    lemma_hottest(hot);
    laws::lemma_limited_classes(
        (BySite { by_callchain: false }),
        Hottest,
        related,
        req.related_limit,
        hot,
    );
    assert forall|i: int, j: int|
        #![trigger r.related_access_sites@[i], r.related_access_sites@[j]]
        0 <= i < j < r.related_access_sites@.len() implies !hotter(
        r.related_access_sites@[j].stats,
        r.related_access_sites@[i].stats,
    ) by {
        assert(detail::related_row(r.related_access_sites@[i], others[i], size, symbols));
        assert(detail::related_row(r.related_access_sites@[j], others[j], size, symbols));
        assert(!hot(others[j], others[i]));
    }
}

/// The accesses to a cache line fall in hits on modified lines, then in answers
/// of peers, then in samples, then in weight, and then rise in instruction. They
/// are accesses to that line, and an access to it is listed, unless the list is
/// full of accesses with no fewer hits on modified lines.
pub proof fn law_line_accesses_fall(
    r: C2cCachelineDetailResult,
    p: C2cProfile,
    req: C2cCachelineDetailRequest,
    symbols: Seq<InstructionSymbol>,
    failures: Seq<LookupFailure>,
)
    requires
        detail::answers_line_detail(r, p, req, symbols, failures),
        req.members(p).len() <= usize::MAX,
    ensures
        r.access_sites@.len() <= req.limit,
        forall|i: int, j: int|
            #![trigger r.access_sites@[i], r.access_sites@[j]]
            0 <= i < j < r.access_sites@.len() ==> {
                let a = r.access_sites@[i];
                let b = r.access_sites@[j];
                a.total_hitm > b.total_hitm || (a.total_hitm == b.total_hitm && (a.total_peer
                    > b.total_peer || (a.total_peer == b.total_peer && (a.samples > b.samples || (
                a.samples == b.samples && (a.average_weight.sum > b.average_weight.sum || (
                a.average_weight.sum == b.average_weight.sum && address::address_in(
                    a.instruction_address@,
                )->Ok_0 <= address::address_in(b.instruction_address@)->Ok_0)))))))
            },
        forall|k: int|
            #![trigger req.members(p)[k]]
            0 <= k < req.members(p).len() ==> (exists|i: int|
                #![trigger r.access_sites@[i]]
                0 <= i < r.access_sites@.len() && {
                    let row = r.access_sites@[i];
                    let y = req.members(p)[k];
                    &&& row.data_address@ == text::hex_text(y.data_address as int)
                    &&& row.instruction_address@ == text::hex_text(y.instruction_address as int)
                    &&& row.pid == y.pid
                    &&& row.tid == y.tid
                    &&& row.cpu == y.cpu
                    &&& row.thread_name@ == y.thread_name@
                    &&& row.exact_ip == y.exact_ip
                    &&& row.raw_data_source@ == text::hex_text(y.data_source.raw as int)
                }) || ((r.access_sites@.len() == req.limit || r.access_sites@.len() == 1000)
                && forall|i: int|
                #![trigger r.access_sites@[i]]
                0 <= i < r.access_sites@.len() ==> r.access_sites@[i].total_hitm >= types::count_of(
                    req.members(p),
                    |x: C2cSample|
                        x.data_source.hitm() && ByAccess.key(x) == ByAccess.key(req.members(p)[k]),
                )),
{
    let size = p.cacheline_size;
    let s = req.members(p);
    let list = detail::access_classes(s, req.limit);
    let better = |a: Seq<C2cSample>, b: Seq<C2cSample>|
        {
            let x = types::stats_of(a);
            let y = types::stats_of(b);
            x.hitm() > y.hitm() || (x.hitm() == y.hitm() && (x.peer() > y.peer() || (x.peer()
                == y.peer() && (x.samples > y.samples || (x.samples == y.samples && (x.weight_sum
                > y.weight_sum || (x.weight_sum == y.weight_sum && a[0].instruction_address
                < b[0].instruction_address)))))))
        };
    assert forall|a: Seq<C2cSample>, b: Seq<C2cSample>|
        a.len() > 0 && b.len() > 0 && #[trigger] better(a, b) implies rank::lex_before(
        AccessOrder.key(a),
        AccessOrder.key(b),
    ) by {
        let x = types::stats_of(a);
        let y = types::stats_of(b);
        let ia = rank::ascending(a[0].instruction_address as int);
        let ib = rank::ascending(b[0].instruction_address as int);
        if a[0].instruction_address < b[0].instruction_address {
            lemma_plain_ascending(
                a[0].instruction_address as int,
                b[0].instruction_address as int,
            );
        }
        let wa = rank::descending(x.weight_sum as int) + ia;
        let wb = rank::descending(y.weight_sum as int) + ib;
        rank::lemma_descending_leads(x.weight_sum as int, y.weight_sum as int, ia, ib);
        let sa = rank::descending(x.samples as int) + wa;
        let sb = rank::descending(y.samples as int) + wb;
        rank::lemma_descending_leads(x.samples as int, y.samples as int, wa, wb);
        let pa = rank::descending(x.peer() as int) + sa;
        let pb = rank::descending(y.peer() as int) + sb;
        rank::lemma_descending_leads(x.peer() as int, y.peer() as int, sa, sb);
        rank::lemma_descending_leads(x.hitm() as int, y.hitm() as int, pa, pb);
        assert(AccessOrder.key(a) =~= rank::descending(x.hitm() as int) + pa);
        assert(AccessOrder.key(b) =~= rank::descending(y.hitm() as int) + pb);
    }
    laws::lemma_limited_classes(ByAccess, AccessOrder, s, req.limit, better);
    assert forall|i: int, j: int|
        #![trigger r.access_sites@[i], r.access_sites@[j]]
        0 <= i < j < r.access_sites@.len() implies {
        let a = r.access_sites@[i];
        let b = r.access_sites@[j];
        a.total_hitm > b.total_hitm || (a.total_hitm == b.total_hitm && (a.total_peer
            > b.total_peer || (a.total_peer == b.total_peer && (a.samples > b.samples || (a.samples
            == b.samples && (a.average_weight.sum > b.average_weight.sum || (a.average_weight.sum
            == b.average_weight.sum && address::address_in(a.instruction_address@)->Ok_0
            <= address::address_in(b.instruction_address@)->Ok_0)))))))
    } by {
        assert(detail::access_row(r.access_sites@[i], list[i], size, symbols));
        assert(detail::access_row(r.access_sites@[j], list[j], size, symbols));
        assert(!better(list[j], list[i]));
        address::law_written_addresses_are_read(list[i][0].instruction_address);
        address::law_written_addresses_are_read(list[j][0].instruction_address);
    }
    assert forall|k: int|
        #![trigger s[k]]
        0 <= k < s.len() implies (exists|i: int|
        #![trigger r.access_sites@[i]]
        0 <= i < r.access_sites@.len() && {
            let row = r.access_sites@[i];
            let y = s[k];
            &&& row.data_address@ == text::hex_text(y.data_address as int)
            &&& row.instruction_address@ == text::hex_text(y.instruction_address as int)
            &&& row.pid == y.pid
            &&& row.tid == y.tid
            &&& row.cpu == y.cpu
            &&& row.thread_name@ == y.thread_name@
            &&& row.exact_ip == y.exact_ip
            &&& row.raw_data_source@ == text::hex_text(y.data_source.raw as int)
        }) || ((r.access_sites@.len() == req.limit || r.access_sites@.len() == 1000) && forall|
        i: int|
        #![trigger r.access_sites@[i]]
        0 <= i < r.access_sites@.len() ==> r.access_sites@[i].total_hitm >= types::count_of(
            s,
            |x: C2cSample| x.data_source.hitm() && ByAccess.key(x) == ByAccess.key(s[k]),
        )) by {
        let class = classes::class_of(ByAccess, s, ByAccess.key(s[k]));
        laws::lemma_class_key(ByAccess, s, ByAccess.key(s[k]));
        if list.contains(class) {
            let i = choose|i: int| 0 <= i < list.len() && list[i] == class;
            assert(detail::access_row(r.access_sites@[i], list[i], size, symbols));
            assert(ByAccess.key(list[i][0]) == ByAccess.key(s[k]));
        } else {
            lemma_member_hitm(
                ByAccess,
                s,
                ByAccess.key(s[k]),
                |x: C2cSample| x.data_source.hitm() && ByAccess.key(x) == ByAccess.key(s[k]),
            );
            assert forall|i: int|
                #![trigger r.access_sites@[i]]
                0 <= i < r.access_sites@.len() implies r.access_sites@[i].total_hitm
                >= types::stats_of(class).hitm() by {
                assert(detail::access_row(r.access_sites@[i], list[i], size, symbols));
                assert(!better(class, list[i]));
            }
        }
    }
}

/// An average latency in units of 2^-46, zero where none is recorded.
pub open spec fn fine_latency(average: Option<Average>) -> int {
    match average {
        Some(average) => average.sum * 0x4000_0000_0000 / average.count as int,
        None => 0,
    }
}

proof fn lemma_latency(a: C2cStats, u: int)
    requires
        u == 0x4000_0000_0000,
    ensures
        fine_latency(a.latency()) == orders::latency_whole(a) * u + orders::latency_fraction(a),
        0 <= orders::latency_fraction(a) < u,
        0 <= orders::latency_whole(a) <= u128::MAX,
{
    let n = a.instruction_latency_samples as int;
    let sum = a.instruction_latency_sum as int;
    if n > 0 {
        let w = sum / n;
        let m = sum % n;
        vstd::arithmetic::div_mod::lemma_fundamental_div_mod(sum, n);
        vstd::arithmetic::div_mod::lemma_hoist_over_denominator(m * u, w * u, n as nat);
        assert(sum * u == m * u + (w * u) * n) by (nonlinear_arith)
            requires
                sum == n * w + m,
        ;
        assert(0 <= m < n);
        assert(0 <= m * u < u * n) by (nonlinear_arith)
            requires
                0 <= m < n,
                u > 0,
        ;
        vstd::arithmetic::div_mod::lemma_multiply_divide_lt(m * u, n, u);
        assert(0 <= m * u / n) by (nonlinear_arith)
            requires
                0 <= m * u,
                n > 0,
        ;
        assert(0 <= w <= sum) by (nonlinear_arith)
            requires
                w == sum / n,
                n > 0,
                sum >= 0,
        ;
    } else {
        assert(orders::latency_whole(a) * u == 0) by (nonlinear_arith)
            requires
                orders::latency_whole(a) == 0,
        ;
    }
}

proof fn lemma_site_sort(sort: SiteSort, x: C2cStats, y: C2cStats, u: Seq<i128>, v: Seq<i128>)
    ensures
        site_metric(sort, x) > site_metric(sort, y) ==> rank::lex_before(
            sort.key(x) + u,
            sort.key(y) + v,
        ),
        site_metric(sort, x) == site_metric(sort, y) && rank::lex_before(u, v) ==> rank::lex_before(
            sort.key(x) + u,
            sort.key(y) + v,
        ),
{
    rank::lemma_descending_leads(x.hitm() as int, y.hitm() as int, u, v);
    rank::lemma_descending_leads(x.locked as int, y.locked as int, u, v);
    rank::lemma_descending_leads(x.samples as int, y.samples as int, u, v);
    rank::lemma_descending_leads(x.weight_sum as int, y.weight_sum as int, u, v);
    if sort == SiteSort::Latency {
        let unit = 0x4000_0000_0000int;
        lemma_latency(x, unit);
        lemma_latency(y, unit);
        let (wx, fx) = (orders::latency_whole(x), orders::latency_fraction(x));
        let (wy, fy) = (orders::latency_whole(y), orders::latency_fraction(y));
        assert(wx * unit + fx > wy * unit + fy ==> wx > wy || (wx == wy && fx > fy))
            by (nonlinear_arith)
            requires
                0 <= fx < unit,
                0 <= fy < unit,
        ;
        assert(wx * unit + fx == wy * unit + fy ==> wx == wy && fx == fy) by (nonlinear_arith)
            requires
                0 <= fx < unit,
                0 <= fy < unit,
        ;
        let px = rank::descending(fx) + u;
        let py = rank::descending(fy) + v;
        rank::lemma_descending_leads(fx, fy, u, v);
        rank::lemma_descending_leads(wx, wy, px, py);
        assert(sort.key(x) + u =~= rank::descending(wx) + px);
        assert(sort.key(y) + v =~= rank::descending(wy) + py);
    }
}

spec fn site_metric(sort: SiteSort, stats: C2cStats) -> int {
    match sort {
        SiteSort::Hitm => stats.hitm() as int,
        SiteSort::Locked => stats.locked as int,
        SiteSort::Samples => stats.samples as int,
        SiteSort::Weight => stats.weight_sum as int,
        SiteSort::Latency => fine_latency(stats.latency()),
    }
}

spec fn site_leads(
    sort: SiteSort,
    by_callchain: bool,
    a: Seq<C2cSample>,
    b: Seq<C2cSample>,
) -> bool {
    let x = types::stats_of(a);
    let y = types::stats_of(b);
    let (m, n) = (site_metric(sort, x), site_metric(sort, y));
    m > n || (m == n && (x.hitm() > y.hitm() || (x.hitm() == y.hitm() && (x.samples > y.samples || (
    x.samples == y.samples && rank::spelled_before(
        encode_utf8(site::site_id(site::site_of(a[0], by_callchain))),
        encode_utf8(site::site_id(site::site_of(b[0], by_callchain))),
    ))))))
}

proof fn lemma_site_order(
    sort: SiteSort,
    by_callchain: bool,
    a: Seq<C2cSample>,
    b: Seq<C2cSample>,
)
    requires
        site_leads(sort, by_callchain, a, b),
    ensures
        rank::lex_before(
            (SiteOrder { sort, by_callchain }).key(a),
            (SiteOrder { sort, by_callchain }).key(b),
        ),
{
    let o = SiteOrder { sort, by_callchain };
    let x = types::stats_of(a);
    let y = types::stats_of(b);
    let ida = site::site_id(site::site_of(a[0], by_callchain));
    let idb = site::site_id(site::site_of(b[0], by_callchain));
    let ta = rank::textual(ida);
    let tb = rank::textual(idb);
    if rank::spelled_before(encode_utf8(ida), encode_utf8(idb)) {
        lemma_plain_textual(ida, idb);
    }
    let sa = rank::descending(x.samples as int) + ta;
    let sb = rank::descending(y.samples as int) + tb;
    rank::lemma_descending_leads(x.samples as int, y.samples as int, ta, tb);
    let ha = rank::descending(x.hitm() as int) + sa;
    let hb = rank::descending(y.hitm() as int) + sb;
    rank::lemma_descending_leads(x.hitm() as int, y.hitm() as int, sa, sb);
    lemma_site_sort(sort, x, y, ha, hb);
    assert(o.key(a) =~= sort.key(x) + ha);
    assert(o.key(b) =~= sort.key(y) + hb);
}

proof fn lemma_site_ranking(s: Seq<C2cSample>, sort: SiteSort, by_callchain: bool, limit: usize)
    ensures
        ({
            let c = BySite { by_callchain };
            let list = rows::limited(tools::site_classes(s, sort, by_callchain), limit);
            &&& list.len() <= limit
            &&& forall|i: int, j: int|
                #![trigger list[i], list[j]]
                0 <= i < j < list.len() ==> !site_leads(sort, by_callchain, list[j], list[i])
            &&& forall|k: int|
                #![trigger s[k]]
                0 <= k < s.len() ==> list.contains(classes::class_of(c, s, c.key(s[k])))
                    || list.len() == limit || list.len() == 1000
            &&& forall|i: int| 0 <= i < list.len() ==> (#[trigger] list[i]).len() > 0
        }),
{
    let c = BySite { by_callchain };
    let o = SiteOrder { sort, by_callchain };
    let list = rows::limited(tools::site_classes(s, sort, by_callchain), limit);
    let better = |a: Seq<C2cSample>, b: Seq<C2cSample>| site_leads(sort, by_callchain, a, b);
    assert forall|a: Seq<C2cSample>, b: Seq<C2cSample>|
        a.len() > 0 && b.len() > 0 && #[trigger] better(a, b) implies rank::lex_before(
        o.key(a),
        o.key(b),
    ) by {
        lemma_site_order(sort, by_callchain, a, b);
    }
    laws::lemma_limited_classes(c, o, s, limit, better);
    assert forall|i: int, j: int|
        #![trigger list[i], list[j]]
        0 <= i < j < list.len() implies !site_leads(sort, by_callchain, list[j], list[i]) by {
        assert(!better(list[j], list[i]));
    }
}

/// The reported access sites fall in what the request sorts by: the hits on
/// modified lines, the locked accesses, the samples, the weight, or the average
/// latency. Sites that are alike in it fall in hits on modified lines, then in
/// samples. The report tells how many sites there are, and a site is left out
/// only for the limit.
pub proof fn law_contended_sites_lead(
    r: C2cTopAccessSitesResult,
    p: C2cProfile,
    req: C2cTopAccessSitesRequest,
    symbols: Seq<InstructionSymbol>,
    failures: Seq<LookupFailure>,
)
    requires
        tools::answers_top_access_sites(r, p, req, symbols, failures),
        req.sort() is Some,
    ensures
        r.access_sites@.len() <= req.limit,
        r.access_sites@.len() == r.total_access_sites || ((r.access_sites@.len() == req.limit
            || r.access_sites@.len() == 1000) && r.access_sites@.len() < r.total_access_sites),
        forall|i: int, j: int|
            #![trigger r.access_sites@[i], r.access_sites@[j]]
            0 <= i < j < r.access_sites@.len() ==> {
                let a = r.access_sites@[i];
                let b = r.access_sites@[j];
                let word = text::ascii_lower(req.sort_by@);
                let (x, y) = if word == "hitm"@ {
                    (a.total_hitm as int, b.total_hitm as int)
                } else if word == "locked"@ {
                    (a.locked as int, b.locked as int)
                } else if word == "samples"@ {
                    (a.samples as int, b.samples as int)
                } else if word == "weight"@ {
                    (a.average_weight.sum as int, b.average_weight.sum as int)
                } else {
                    (
                        fine_latency(a.average_instruction_latency),
                        fine_latency(b.average_instruction_latency),
                    )
                };
                &&& word == "hitm"@ || word == "locked"@ || word == "samples"@ || word == "weight"@
                    || word == "latency"@
                &&& x > y || (x == y && (a.total_hitm > b.total_hitm || (a.total_hitm
                    == b.total_hitm && (a.samples > b.samples || (a.samples == b.samples
                    && !rank::spelled_before(encode_utf8(b.site_id@), encode_utf8(a.site_id@)))))))
            },
        ({
            let s = tools::matched(p, req.filter());
            forall|k: int|
                #![trigger s[k]]
                0 <= k < s.len() ==> (exists|i: int|
                    #![trigger r.access_sites@[i]]
                    0 <= i < r.access_sites@.len() && r.access_sites@[i].site_id@ == site::site_id(
                        site::site_of(s[k], req.group_by_callchain),
                    )) || r.access_sites@.len() == req.limit || r.access_sites@.len() == 1000
        }),
{
    let s = tools::matched(p, req.filter());
    let sort = req.sort()->0;
    let by_callchain = req.group_by_callchain;
    let c = BySite { by_callchain };
    let list = rows::limited(tools::site_classes(s, sort, by_callchain), req.limit);
    lemma_site_ranking(s, sort, by_callchain, req.limit);
    reveal_strlit("hitm");
    reveal_strlit("locked");
    reveal_strlit("samples");
    reveal_strlit("weight");
    reveal_strlit("latency");
    assert("hitm"@[0] == 'h' && "locked"@[1] == 'o' && "samples"@[0] == 's' && "weight"@[0] == 'w'
        && "latency"@[1] == 'a' && "locked"@[0] == 'l' && "latency"@[0] == 'l');
    assert forall|i: int, j: int|
        #![trigger r.access_sites@[i], r.access_sites@[j]]
        0 <= i < j < r.access_sites@.len() implies !site_leads(
        sort,
        by_callchain,
        list[j],
        list[i],
    ) && tools::site_row(r.access_sites@[i], list[i], p.cacheline_size, req, symbols)
        && tools::site_row(r.access_sites@[j], list[j], p.cacheline_size, req, symbols) by {
        assert(list[i].len() > 0 && list[j].len() > 0);
    }
    assert forall|k: int|
        #![trigger s[k]]
        0 <= k < s.len() implies (exists|i: int|
        #![trigger r.access_sites@[i]]
        0 <= i < r.access_sites@.len() && r.access_sites@[i].site_id@ == site::site_id(
            site::site_of(s[k], by_callchain),
        )) || r.access_sites@.len() == req.limit || r.access_sites@.len() == 1000 by {
        let class = classes::class_of(c, s, c.key(s[k]));
        laws::lemma_class_key(c, s, c.key(s[k]));
        if list.contains(class) {
            let i = choose|i: int| 0 <= i < list.len() && list[i] == class;
            assert(tools::site_row(r.access_sites@[i], list[i], p.cacheline_size, req, symbols));
            assert(c.key(list[i][0]) == c.key(s[k]));
        }
    }
}

/// The source of an instruction is what the first lookup of its file and its
/// relative address says: where there are frames, that of the deepest one, and
/// else only the symbol's name. An instruction without a lookup has none.
pub proof fn law_lookups_tell_the_source(
    symbols: Seq<InstructionSymbol>,
    mapped: types::InstructionFacts,
    i: int,
)
    requires
        0 <= i < symbols.len(),
        symbols[i].path@ == mapped.path,
        symbols[i].relative_address == mapped.relative_address,
        forall|k: int|
            0 <= k < i ==> (#[trigger] symbols[k]).path@ != mapped.path
                || symbols[k].relative_address != mapped.relative_address,
    ensures
        ({
            let source = rows::source_of(Some(mapped), symbols);
            &&& symbols[i].info is None ==> source.function_name is None && source.file is None
                && source.line is None && source.inline_frames.len() == 0
            &&& symbols[i].info matches Some(info) ==> {
                let n = info.frames@.len() as int;
                &&& source.inline_frames.len() == n
                &&& n > 0 ==> source.function_name == Some(info.frames@[n - 1].function_name@)
                    && source.file == text::opt(info.frames@[n - 1].file) && source.line
                    == info.frames@[n - 1].line
                &&& n == 0 ==> source.function_name == text::opt(info.symbol_name) && source.file
                    is None && source.line is None
            }
        }),
{
    lemma_lookup(symbols, mapped, 0, i);
    if let Some(info) = symbols[i].info {
        let points = crate::profile::dwarf::points(info.frames@);
        assert(points.len() == info.frames@.len());
        if points.len() > 0 {
            assert(points.last() == info.frames@[info.frames@.len() - 1].point());
        }
    }
}

proof fn lemma_lookup(
    symbols: Seq<InstructionSymbol>,
    mapped: types::InstructionFacts,
    from: int,
    i: int,
)
    requires
        0 <= from <= i < symbols.len(),
        symbols[i].path@ == mapped.path,
        symbols[i].relative_address == mapped.relative_address,
        forall|k: int|
            from <= k < i ==> (#[trigger] symbols[k]).path@ != mapped.path
                || symbols[k].relative_address != mapped.relative_address,
    ensures
        rows::lookup(symbols, mapped.path, mapped.relative_address, from) == match symbols[i].info {
            Some(info) => rows::source_in(info),
            None => rows::no_source(),
        },
    decreases i - from,
{
    if from < i {
        lemma_lookup(symbols, mapped, from + 1, i);
    }
}

/// An access that a report on a site calls related touches one of the site's
/// cache lines in the same process and is not an access of the site itself,
/// and every such access is called related.
pub proof fn law_related_accesses(
    s: Seq<C2cSample>,
    lines: Seq<(i32, u64)>,
    size: u64,
    instruction_address: Option<u64>,
    id: Option<Seq<char>>,
    x: C2cSample,
)
    ensures
        detail::related_in(s, lines, size, instruction_address, id).contains(x) <==> s.contains(x)
            && lines.contains((x.pid, address::aligned(x.data_address, size)))
            && instruction_address != Some(x.instruction_address) && (id is None || (site::site_id(
            site::site_of(x, false),
        ) != id->0 && site::site_id(site::site_of(x, true)) != id->0)),
    decreases s.len(),
{
    let all = detail::related_in(s, lines, size, instruction_address, id);
    if s.len() > 0 {
        let rest = s.drop_last();
        let before = detail::related_in(rest, lines, size, instruction_address, id);
        law_related_accesses(rest, lines, size, instruction_address, id, x);
        if s.contains(x) {
            let k = choose|k: int| 0 <= k < s.len() && s[k] == x;
            if k < rest.len() {
                assert(rest[k] == x);
            } else {
                assert(s.last() == x);
            }
        }
        if rest.contains(x) {
            let k = choose|k: int| 0 <= k < rest.len() && rest[k] == x;
            assert(s[k] == x);
        }
        assert(s[s.len() - 1] == s.last());
        if before.contains(x) {
            let k = choose|k: int| 0 <= k < before.len() && before[k] == x;
            assert(all[k] == x);
        }
        if all.contains(x) {
            let k = choose|k: int| 0 <= k < all.len() && all[k] == x;
            if k < before.len() {
                assert(before[k] == x);
            }
        }
        if all.len() > before.len() {
            assert(all[before.len() as int] == s.last());
        }
    }
}

/// A site's count of cache lines with a hit on a modified line is the number of
/// its processes' lines on which some access hit a modified line.
pub proof fn law_hitm_lines_are_counted(s: Seq<C2cSample>, size: u64)
    requires
        s.len() <= usize::MAX,
    ensures
        exists|lines: Seq<(i32, u64)>|
            #![trigger lines.no_duplicates()]
            {
                &&& lines.no_duplicates()
                &&& lines.len() == tools::hitm_lines(s, size)
                &&& forall|line: (i32, u64)| #[trigger]
                    lines.contains(line) <==> exists|k: int|
                        #![trigger s[k]]
                        0 <= k < s.len() && s[k].data_source.hitm() && s[k].pid == line.0
                            && address::aligned(s[k].data_address, size) == line.1
            },
{
    let c = ByProcessLine { size };
    let keys = classes::keys_in(c, s);
    classes::lemma_keys(c, s);
    let lines = lemma_hitm_keys(c, s, keys.len() as int);
    assert(classes::classes(c, s).take(keys.len() as int) =~= classes::classes(c, s));
    assert forall|line: (i32, u64)| #[trigger] lines.contains(line) <==> exists|k: int|
        #![trigger s[k]]
        0 <= k < s.len() && s[k].data_source.hitm() && s[k].pid == line.0 && address::aligned(
            s[k].data_address,
            size,
        ) == line.1 by {
        let class = classes::class_of(c, s, line);
        laws::lemma_class_len(c, s, line);
        types::law_stats_count_accesses(class);
        lemma_some_hitm(c, s, line);
        if exists|k: int|
            #![trigger s[k]]
            0 <= k < s.len() && s[k].data_source.hitm() && s[k].pid == line.0 && address::aligned(
                s[k].data_address,
                size,
            ) == line.1 {
            let k = choose|k: int|
                #![trigger s[k]]
                0 <= k < s.len() && s[k].data_source.hitm() && s[k].pid == line.0
                    && address::aligned(s[k].data_address, size) == line.1;
            assert(c.key(s[k]) == line);
            let j = laws::lemma_has_key(c, s, k);
            assert(keys[j] == line);
        }
    }
}

proof fn lemma_some_hitm(c: ByProcessLine, s: Seq<C2cSample>, key: (i32, u64))
    ensures
        types::count_of(classes::class_of(c, s, key), |x: C2cSample| x.data_source.hitm()) > 0
            <==> exists|k: int|
            #![trigger s[k]]
            0 <= k < s.len() && s[k].data_source.hitm() && c.key(s[k]) == key,
    decreases s.len(),
{
    let class = classes::class_of(c, s, key);
    types::lemma_count_bounds(class, |x: C2cSample| x.data_source.hitm());
    if s.len() > 0 {
        let rest = s.drop_last();
        lemma_some_hitm(c, rest, key);
        let before = classes::class_of(c, rest, key);
        types::lemma_count_bounds(before, |x: C2cSample| x.data_source.hitm());
        if c.key(s.last()) == key {
            assert(class.drop_last() =~= before);
        }
        if exists|k: int|
            #![trigger rest[k]]
            0 <= k < rest.len() && rest[k].data_source.hitm() && c.key(rest[k]) == key {
            let k = choose|k: int|
                #![trigger rest[k]]
                0 <= k < rest.len() && rest[k].data_source.hitm() && c.key(rest[k]) == key;
            assert(s[k] == rest[k]);
        }
        if exists|k: int|
            #![trigger s[k]]
            0 <= k < s.len() && s[k].data_source.hitm() && c.key(s[k]) == key {
            let k = choose|k: int|
                #![trigger s[k]]
                0 <= k < s.len() && s[k].data_source.hitm() && c.key(s[k]) == key;
            if k < rest.len() {
                assert(rest[k] == s[k]);
            }
        }
        assert(s[s.len() - 1] == s.last());
    }
}

proof fn lemma_hitm_keys(c: ByProcessLine, s: Seq<C2cSample>, n: int) -> (lines: Seq<(i32, u64)>)
    requires
        0 <= n <= classes::keys_in(c, s).len(),
        s.len() <= usize::MAX,
    ensures
        lines.no_duplicates(),
        lines.len() == tools::with_hitm(classes::classes(c, s).take(n)),
        forall|line: (i32, u64)| #[trigger]
            lines.contains(line) <==> (exists|i: int|
                #![trigger classes::keys_in(c, s)[i]]
                0 <= i < n && classes::keys_in(c, s)[i] == line) && types::stats_of(
                classes::class_of(c, s, line),
            ).hitm() > 0,
    decreases n,
{
    let keys = classes::keys_in(c, s);
    let all = classes::classes(c, s);
    if n == 0 {
        assert(all.take(0) =~= Seq::<Seq<C2cSample>>::empty());
        Seq::empty()
    } else {
        let before = lemma_hitm_keys(c, s, n - 1);
        classes::lemma_keys(c, s);
        assert(all.take(n).drop_last() =~= all.take(n - 1));
        assert(all.take(n).last() == classes::class_of(c, s, keys[n - 1]));
        let key = keys[n - 1];
        let hit = types::stats_of(classes::class_of(c, s, key)).hitm() > 0;
        let lines = if hit {
            before.push(key)
        } else {
            before
        };
        assert(!before.contains(key)) by {
            if before.contains(key) {
                let i = choose|i: int|
                    #![trigger keys[i]]
                    0 <= i < n - 1 && keys[i] == key;
                assert(keys[i] != keys[n - 1]);
            }
        }
        assert(lines.no_duplicates()) by {
            assert forall|i: int, j: int|
                0 <= i < lines.len() && 0 <= j < lines.len() && i != j implies lines[i] != lines[j] by {
                if i < before.len() && j < before.len() {
                    assert(before[i] != before[j]);
                } else if i < before.len() {
                    assert(before.contains(before[i]));
                } else if j < before.len() {
                    assert(before.contains(before[j]));
                }
            }
        }
        assert forall|line: (i32, u64)| #[trigger] lines.contains(line) <==> (exists|i: int|
            #![trigger keys[i]]
            0 <= i < n && keys[i] == line) && types::stats_of(
            classes::class_of(c, s, line),
        ).hitm() > 0 by {
            if before.contains(line) {
                let i = choose|i: int| 0 <= i < before.len() && before[i] == line;
                assert(lines[i] == line);
            }
            if lines.contains(line) {
                let i = choose|i: int| 0 <= i < lines.len() && lines[i] == line;
                if i < before.len() {
                    assert(before[i] == line);
                } else {
                    assert(keys[n - 1] == line);
                }
            }
            if exists|i: int|
                #![trigger keys[i]]
                0 <= i < n && keys[i] == line {
                let i = choose|i: int|
                    #![trigger keys[i]]
                    0 <= i < n && keys[i] == line;
                if i == n - 1 && hit {
                    assert(lines[before.len() as int] == line);
                }
            }
        }
        lines
    }
}

/// The records of a recording add up: those with a data address, those without
/// one, and those of other events. Its duration is the time from the first
/// sample to the last.
pub proof fn law_records_add_up(r: C2cProfileSummary, p: C2cProfile, matched: usize)
    requires
        rows::summarizes(r, p, matched),
        p.samples@.len() + p.missing_data_address_samples + p.skipped_samples <= usize::MAX,
    ensures
        r.total_sample_records == r.usable_memory_samples + r.missing_data_address_samples
            + r.skipped_non_memory_samples,
        r.total_memory_samples == r.usable_memory_samples + r.missing_data_address_samples,
        r.usable_memory_samples == p.samples@.len(),
        r.global_stats.samples == p.samples@.len(),
        p.first_timestamp_ns matches Some(first) ==> p.last_timestamp_ns matches Some(last) ==> last
            >= first ==> first + r.duration_ms == last,
{
    types::law_stats_count_accesses(p.samples@);
}

/// The CPUs, processes and threads of accesses are listed once each and rise,
/// thread names are listed once each, and each list holds exactly what some
/// access has.
pub proof fn law_origins_are_listed(
    cpus: Seq<u32>,
    pids: Seq<i32>,
    tids: Seq<i32>,
    names: Seq<String>,
    s: Seq<C2cSample>,
)
    requires
        tools::tells_origin(cpus, pids, tids, names, s),
    ensures
        forall|i: int, j: int|
            #![trigger cpus[i], cpus[j]]
            0 <= i < j < cpus.len() ==> cpus[i] < cpus[j],
        forall|i: int, j: int|
            #![trigger pids[i], pids[j]]
            0 <= i < j < pids.len() ==> pids[i] < pids[j],
        forall|i: int, j: int|
            #![trigger tids[i], tids[j]]
            0 <= i < j < tids.len() ==> tids[i] < tids[j],
        forall|v: u32| #[trigger]
            cpus.contains(v) <==> exists|k: int| 0 <= k < s.len() && (#[trigger] s[k]).cpu == v,
        forall|v: i32| #[trigger]
            pids.contains(v) <==> exists|k: int| 0 <= k < s.len() && (#[trigger] s[k]).pid == v,
        forall|v: i32| #[trigger]
            tids.contains(v) <==> exists|k: int| 0 <= k < s.len() && (#[trigger] s[k]).tid == v,
        forall|v: Seq<char>| #[trigger]
            text::views(names).contains(v) <==> exists|k: int|
                0 <= k < s.len() && (#[trigger] s[k]).thread_name@ == v,
{
    classes::law_gathered_once_each(Cpu, s);
    classes::law_gathered_once_each(Pid, s);
    classes::law_gathered_once_each(Tid, s);
    classes::law_gathered_once_each(ThreadName, s);
    assert(sets::models(cpus) =~= cpus);
    assert(sets::models(pids) =~= pids);
    assert(sets::models(tids) =~= tids);
    assert(sets::models(names) =~= text::views(names));
    assert forall|v: u32| #[trigger] cpus.contains(v) <==> exists|k: int|
        0 <= k < s.len() && (#[trigger] s[k]).cpu == v by {
        assert(classes::gathered(Cpu, s).contains(v) <==> exists|k: int|
            0 <= k < s.len() && Cpu.of(#[trigger] s[k]) == Some(v));
    }
    assert forall|v: i32| #[trigger] pids.contains(v) <==> exists|k: int|
        0 <= k < s.len() && (#[trigger] s[k]).pid == v by {
        assert(classes::gathered(Pid, s).contains(v) <==> exists|k: int|
            0 <= k < s.len() && Pid.of(#[trigger] s[k]) == Some(v));
    }
    assert forall|v: i32| #[trigger] tids.contains(v) <==> exists|k: int|
        0 <= k < s.len() && (#[trigger] s[k]).tid == v by {
        assert(classes::gathered(Tid, s).contains(v) <==> exists|k: int|
            0 <= k < s.len() && Tid.of(#[trigger] s[k]) == Some(v));
    }
    assert forall|v: Seq<char>| #[trigger] text::views(names).contains(v) <==> exists|k: int|
        0 <= k < s.len() && (#[trigger] s[k]).thread_name@ == v by {
        assert(classes::gathered(ThreadName, s).contains(v) <==> exists|k: int|
            0 <= k < s.len() && ThreadName.of(#[trigger] s[k]) == Some(v));
    }
}

/// A site's cache lines are told apart by process in virtual memory, and by
/// address alone in physical memory, where accesses without a physical address
/// have none.
pub proof fn law_lines_are_told_apart(size: u64, s: Seq<C2cSample>)
    ensures
        forall|pid: i32, line: u64| #[trigger]
            classes::gathered((VirtualLine { size }), s).contains((pid, line)) <==> exists|k: int|
                0 <= k < s.len() && (#[trigger] s[k]).pid == pid && address::aligned(
                    s[k].data_address,
                    size,
                ) == line,
        forall|line: u64| #[trigger]
            classes::gathered((PhysicalLine { size }), s).contains(line) <==> exists|k: int|
                0 <= k < s.len() && (#[trigger] s[k]).physical_address is Some && address::aligned(
                    s[k].physical_address->0,
                    size,
                ) == line,
{
    classes::law_gathered_once_each((VirtualLine { size }), s);
    classes::law_gathered_once_each((PhysicalLine { size }), s);
    assert forall|pid: i32, line: u64| #[trigger]
        classes::gathered((VirtualLine { size }), s).contains((pid, line)) <==> exists|k: int|
            0 <= k < s.len() && (#[trigger] s[k]).pid == pid && address::aligned(
                s[k].data_address,
                size,
            ) == line by {
        assert(classes::gathered((VirtualLine { size }), s).contains((pid, line)) <==> exists|k: int|
            0 <= k < s.len() && (VirtualLine { size }).of(#[trigger] s[k]) == Some((pid, line)));
    }
    assert forall|line: u64| #[trigger]
        classes::gathered((PhysicalLine { size }), s).contains(line) <==> exists|k: int|
            0 <= k < s.len() && (#[trigger] s[k]).physical_address is Some && address::aligned(
                s[k].physical_address->0,
                size,
            ) == line by {
        assert(classes::gathered((PhysicalLine { size }), s).contains(line) <==> exists|k: int|
            0 <= k < s.len() && (PhysicalLine { size }).of(#[trigger] s[k]) == Some(line));
    }
}

}
