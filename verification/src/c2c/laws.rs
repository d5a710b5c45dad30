//! What holds of reports on memory accesses as a whole.
use crate::c2c::address;
use crate::c2c::classes;
use crate::c2c::classes::{ClassOrder, Classifier, Condition, Feature, InstructionAddress};
use crate::c2c::filter;
use crate::c2c::filter::{ByLine, C2cFilter, Matching};
use crate::c2c::orders::{CachelineSort, LineOrder};
use crate::c2c::rows;
use crate::c2c::tools;
use crate::c2c::tools::{C2cTopCachelinesRequest, C2cTopCachelinesResult};
use crate::c2c::types;
use crate::c2c::types::{C2cProfile, C2cSample};
use crate::rank;
use crate::sets::Ordered;
use crate::text;
use vstd::prelude::*;

verus! {

/// The sum of a quantity over accesses.
pub open spec fn total_of(s: Seq<C2cSample>, amount: spec_fn(C2cSample) -> int) -> int
    decreases s.len(),
{
    if s.len() == 0 {
        0
    } else {
        total_of(s.drop_last(), amount) + amount(s.last())
    }
}

/// Classes in an order are the classes of the samples: each is the class of
/// its first sample, every sample has its class, and none is better than one
/// before it.
pub proof fn lemma_ordered_classes<C: Classifier, O: ClassOrder>(
    c: C,
    o: O,
    s: Seq<C2cSample>,
    better: spec_fn(Seq<C2cSample>, Seq<C2cSample>) -> bool,
)
    requires
        forall|a: Seq<C2cSample>, b: Seq<C2cSample>|
            a.len() > 0 && b.len() > 0 && #[trigger] better(a, b) ==> rank::lex_before(
                o.key(a),
                o.key(b),
            ),
    ensures
        ({
            let list = classes::ordered(o, classes::classes(c, s));
            &&& list.len() == classes::keys_in(c, s).len()
            &&& forall|i: int, j: int|
                #![trigger list[i], list[j]]
                0 <= i < j < list.len() ==> !better(list[j], list[i])
            &&& forall|i: int|
                #![trigger list[i]]
                0 <= i < list.len() ==> list[i].len() > 0 && list[i] == classes::class_of(
                    c,
                    s,
                    c.key(list[i][0]),
                )
            &&& forall|k: int|
                #![trigger s[k]]
                0 <= k < s.len() ==> list.contains(classes::class_of(c, s, c.key(s[k])))
        }),
{
    let all = classes::classes(c, s);
    let key = |class: Seq<C2cSample>| o.key(class);
    let list = classes::ordered(o, all);
    classes::lemma_classes(c, s);
    assert forall|i: int, j: int|
        #![trigger all[i], all[j]]
        0 <= i < all.len() && 0 <= j < all.len() && better(all[i], all[j]) implies rank::lex_before(
        key(all[i]),
        key(all[j]),
    ) by {
        assert(all[i].len() > 0 && all[j].len() > 0);
    }
    rank::lemma_ranked_prefers(all, key, better);
    assert forall|i: int|
        #![trigger list[i]]
        0 <= i < list.len() implies list[i].len() > 0 && list[i] == classes::class_of(
        c,
        s,
        c.key(list[i][0]),
    ) by {
        assert(all.contains(list[i]));
        let j = choose|j: int| 0 <= j < all.len() && all[j] == list[i];
        assert(all[j].len() > 0);
        assert(c.key(all[j][0]) == classes::keys_in(c, s)[j]);
    }
    assert forall|k: int|
        #![trigger s[k]]
        0 <= k < s.len() implies list.contains(classes::class_of(c, s, c.key(s[k]))) by {
        let j = lemma_has_key(c, s, k);
        assert(all[j] == classes::class_of(c, s, c.key(s[k])));
        assert(list.contains(all[j]));
    }
}

/// The key of every sample is among the keys.
pub proof fn lemma_has_key<C: Classifier>(c: C, s: Seq<C2cSample>, k: int) -> (j: int)
    requires
        0 <= k < s.len(),
    ensures
        0 <= j < classes::keys_in(c, s).len(),
        classes::keys_in(c, s)[j] == c.key(s[k]),
    decreases s.len(),
{
    let before = classes::keys_in(c, s.drop_last());
    if k < s.len() - 1 {
        let j = lemma_has_key(c, s.drop_last(), k);
        assert(before[j] == c.key(s[k]));
        j
    } else if before.contains(c.key(s[k])) {
        choose|j: int| 0 <= j < before.len() && before[j] == c.key(s[k])
    } else {
        before.len() as int
    }
}

/// The first classes in an order, up to a limit, are classes of the samples,
/// none is better than one before it, and one is left out only where the list
/// is full and the class is better than none in it.
pub proof fn lemma_limited_classes<C: Classifier, O: ClassOrder>(
    c: C,
    o: O,
    s: Seq<C2cSample>,
    limit: usize,
    better: spec_fn(Seq<C2cSample>, Seq<C2cSample>) -> bool,
)
    requires
        forall|a: Seq<C2cSample>, b: Seq<C2cSample>|
            a.len() > 0 && b.len() > 0 && #[trigger] better(a, b) ==> rank::lex_before(
                o.key(a),
                o.key(b),
            ),
    ensures
        ({
            let list = rows::limited(classes::ordered(o, classes::classes(c, s)), limit);
            &&& list.len() <= limit
            &&& list.len() <= 1000
            &&& forall|i: int, j: int|
                #![trigger list[i], list[j]]
                0 <= i < j < list.len() ==> !better(list[j], list[i])
            &&& forall|i: int|
                #![trigger list[i]]
                0 <= i < list.len() ==> list[i].len() > 0 && list[i] == classes::class_of(
                    c,
                    s,
                    c.key(list[i][0]),
                )
            &&& forall|k: int|
                #![trigger s[k]]
                0 <= k < s.len() ==> {
                    let class = classes::class_of(c, s, c.key(s[k]));
                    list.contains(class) || ((list.len() == limit || list.len() == 1000)
                        && forall|i: int|
                        0 <= i < list.len() ==> !better(class, #[trigger] list[i]))
                }
        }),
{
    let all = classes::ordered(o, classes::classes(c, s));
    let list = rows::limited(all, limit);
    lemma_ordered_classes(c, o, s, better);
    assert forall|i: int| 0 <= i < list.len() implies #[trigger] list[i] == all[i] by {}
    assert forall|k: int|
        #![trigger s[k]]
        0 <= k < s.len() implies {
        let class = classes::class_of(c, s, c.key(s[k]));
        list.contains(class) || ((list.len() == limit || list.len() == 1000) && forall|i: int|
            0 <= i < list.len() ==> !better(class, #[trigger] list[i]))
    } by {
        let class = classes::class_of(c, s, c.key(s[k]));
        assert(all.contains(class));
        let j = choose|j: int| 0 <= j < all.len() && all[j] == class;
        if j < list.len() {
            assert(list[j] == class);
        } else {
            assert forall|i: int| 0 <= i < list.len() implies !better(class, #[trigger] list[i]) by {
                assert(!better(all[j], all[i]));
            }
        }
    }
}

/// What is counted in a class is what is counted among all samples with its key.
pub proof fn lemma_class_counts<C: Classifier>(
    c: C,
    s: Seq<C2cSample>,
    k: C::Key,
    property: spec_fn(C2cSample) -> bool,
    both: spec_fn(C2cSample) -> bool,
)
    requires
        forall|x: C2cSample| #[trigger] both(x) == (c.key(x) == k && property(x)),
    ensures
        types::count_of(classes::class_of(c, s, k), property) == types::count_of(s, both),
    decreases s.len(),
{
    if s.len() > 0 {
        lemma_class_counts(c, s.drop_last(), k, property, both);
        assert(both(s.last()) == (c.key(s.last()) == k && property(s.last())));
        let before = classes::class_of(c, s.drop_last(), k);
        if c.key(s.last()) == k {
            assert(classes::class_of(c, s, k).drop_last() =~= before);
        }
    }
}

/// What a class adds up to is what all samples with its key add up to.
pub proof fn lemma_class_total<C: Classifier>(
    c: C,
    s: Seq<C2cSample>,
    k: C::Key,
    amount: spec_fn(C2cSample) -> int,
    part: spec_fn(C2cSample) -> int,
)
    requires
        forall|x: C2cSample| #[trigger]
            part(x) == if c.key(x) == k {
                amount(x)
            } else {
                0
            },
    ensures
        total_of(classes::class_of(c, s, k), amount) == total_of(s, part),
    decreases s.len(),
{
    if s.len() > 0 {
        lemma_class_total(c, s.drop_last(), k, amount, part);
        assert(part(s.last()) == if c.key(s.last()) == k {
            amount(s.last())
        } else {
            0
        });
        let before = classes::class_of(c, s.drop_last(), k);
        if c.key(s.last()) == k {
            assert(classes::class_of(c, s, k).drop_last() =~= before);
        }
    }
}

/// What is counted among chosen samples is what is counted among all samples
/// with the condition.
pub proof fn lemma_chosen_counts<P: Condition>(
    p: P,
    s: Seq<C2cSample>,
    property: spec_fn(C2cSample) -> bool,
    both: spec_fn(C2cSample) -> bool,
)
    requires
        forall|x: C2cSample| #[trigger] both(x) == (p.holds(x) && property(x)),
    ensures
        types::count_of(classes::chosen(p, s), property) == types::count_of(s, both),
    decreases s.len(),
{
    if s.len() > 0 {
        lemma_chosen_counts(p, s.drop_last(), property, both);
        assert(both(s.last()) == (p.holds(s.last()) && property(s.last())));
        if p.holds(s.last()) {
            assert(classes::chosen(p, s).drop_last() =~= classes::chosen(p, s.drop_last()));
        }
    }
}

/// What chosen samples add up to is what all samples with the condition add up to.
pub proof fn lemma_chosen_total<P: Condition>(
    p: P,
    s: Seq<C2cSample>,
    amount: spec_fn(C2cSample) -> int,
    part: spec_fn(C2cSample) -> int,
)
    requires
        forall|x: C2cSample| #[trigger]
            part(x) == if p.holds(x) {
                amount(x)
            } else {
                0
            },
    ensures
        total_of(classes::chosen(p, s), amount) == total_of(s, part),
    decreases s.len(),
{
    if s.len() > 0 {
        lemma_chosen_total(p, s.drop_last(), amount, part);
        assert(part(s.last()) == if p.holds(s.last()) {
            amount(s.last())
        } else {
            0
        });
        if p.holds(s.last()) {
            assert(classes::chosen(p, s).drop_last() =~= classes::chosen(p, s.drop_last()));
        }
    }
}

/// No more samples are chosen than there are.
pub proof fn lemma_chosen_len<P: Condition>(p: P, s: Seq<C2cSample>)
    ensures
        classes::chosen(p, s).len() <= s.len(),
    decreases s.len(),
{
    if s.len() > 0 {
        lemma_chosen_len(p, s.drop_last());
    }
}

/// A chosen sample is one of the samples and has the condition, and every
/// sample with the condition is chosen.
pub proof fn lemma_chosen<P: Condition>(p: P, s: Seq<C2cSample>)
    ensures
        forall|k: int|
            #![trigger s[k]]
            0 <= k < s.len() && p.holds(s[k]) ==> classes::chosen(p, s).contains(s[k]),
        forall|i: int|
            #![trigger classes::chosen(p, s)[i]]
            0 <= i < classes::chosen(p, s).len() ==> p.holds(classes::chosen(p, s)[i])
                && s.contains(classes::chosen(p, s)[i]),
    decreases s.len(),
{
    if s.len() > 0 {
        let rest = s.drop_last();
        let before = classes::chosen(p, rest);
        let after = classes::chosen(p, s);
        lemma_chosen(p, rest);
        assert forall|k: int|
            #![trigger s[k]]
            0 <= k < s.len() && p.holds(s[k]) implies after.contains(s[k]) by {
            if k < rest.len() {
                assert(rest[k] == s[k]);
                let i = choose|i: int| 0 <= i < before.len() && before[i] == s[k];
                assert(after[i] == s[k]);
            } else {
                assert(after[before.len() as int] == s[k]);
            }
        }
        assert forall|i: int|
            #![trigger after[i]]
            0 <= i < after.len() implies p.holds(after[i]) && s.contains(after[i]) by {
            if i < before.len() {
                assert(after[i] == before[i]);
                let k = choose|k: int| 0 <= k < rest.len() && rest[k] == before[i];
                assert(s[k] == after[i]);
            } else {
                assert(s[s.len() - 1] == after[i]);
            }
        }
    }
}

/// The sums of weights and latencies are those of all accesses, whatever their
/// number, and accesses are local or remote hits by where their data came from.
pub proof fn law_stats_add_up_accesses(s: Seq<C2cSample>)
    requires
        s.len() <= usize::MAX,
    ensures
        types::stats_of(s).weight_sum == total_of(s, |x: C2cSample| x.weight as int),
        types::stats_of(s).instruction_latency_sum == total_of(
            s,
            |x: C2cSample|
                if x.instruction_latency is Some {
                    x.instruction_latency->0 as int
                } else {
                    0
                },
        ),
        types::stats_of(s).local_hitm == types::count_of(
            s,
            |x: C2cSample| x.data_source.hitm() && !x.data_source.remote(),
        ),
        types::stats_of(s).remote_hitm == types::count_of(
            s,
            |x: C2cSample| x.data_source.hitm() && x.data_source.remote(),
        ),
        types::stats_of(s).local_peer == types::count_of(
            s,
            |x: C2cSample| x.data_source.peer() && !x.data_source.remote(),
        ),
        types::stats_of(s).remote_peer == types::count_of(
            s,
            |x: C2cSample| x.data_source.peer() && x.data_source.remote(),
        ),
        types::stats_of(s).non_unit_weight_samples == types::count_of(
            s,
            |x: C2cSample| x.weight != 1,
        ),
        0 <= total_of(s, |x: C2cSample| x.weight as int) <= s.len() * u64::MAX,
        0 <= types::stats_of(s).instruction_latency_sum <= s.len() * u16::MAX,
    decreases s.len(),
{
    types::law_stats_count_accesses(s);
    if s.len() > 0 {
        let rest = s.drop_last();
        law_stats_add_up_accesses(rest);
        types::lemma_count_bounds(rest, |x: C2cSample| x.weight != 1);
        types::lemma_count_bounds(
            rest,
            |x: C2cSample| x.data_source.hitm() && !x.data_source.remote(),
        );
        types::lemma_count_bounds(
            rest,
            |x: C2cSample| x.data_source.hitm() && x.data_source.remote(),
        );
        types::lemma_count_bounds(
            rest,
            |x: C2cSample| x.data_source.peer() && !x.data_source.remote(),
        );
        types::lemma_count_bounds(
            rest,
            |x: C2cSample| x.data_source.peer() && x.data_source.remote(),
        );
        let n = s.len() as int;
        assert(n * u64::MAX == (n - 1) * u64::MAX + u64::MAX) by (nonlinear_arith);
        assert(n * u16::MAX == (n - 1) * u16::MAX + u16::MAX) by (nonlinear_arith);
        assert(n * u64::MAX <= u128::MAX) by (nonlinear_arith)
            requires
                n <= usize::MAX,
                usize::MAX <= u64::MAX,
        ;
        assert(n * u16::MAX <= u128::MAX) by (nonlinear_arith)
            requires
                n <= usize::MAX,
                usize::MAX <= u64::MAX,
        ;
    }
}

/// How many accesses of a profile pass a filter, lie on a cache line and have
/// a property.
pub open spec fn count_on_line(
    p: C2cProfile,
    f: C2cFilter,
    line: u64,
    property: spec_fn(C2cSample) -> bool,
) -> int {
    types::count_of(
        p.samples@,
        |x: C2cSample|
            filter::passes(f, p.first_timestamp_ns, x) && address::aligned(
                x.data_address,
                p.cacheline_size,
            ) == line && property(x),
    )
}

/// What the weights of the accesses of a profile that pass a filter and lie on
/// a cache line add up to.
pub open spec fn weight_on_line(p: C2cProfile, f: C2cFilter, line: u64) -> int {
    total_of(
        p.samples@,
        |x: C2cSample|
            if filter::passes(f, p.first_timestamp_ns, x) && address::aligned(
                x.data_address,
                p.cacheline_size,
            ) == line {
                x.weight as int
            } else {
                0
            },
    )
}

proof fn lemma_line_count(
    p: C2cProfile,
    f: C2cFilter,
    line: u64,
    property: spec_fn(C2cSample) -> bool,
)
    ensures
        types::count_of(
            classes::class_of((ByLine { size: p.cacheline_size }), tools::matched(p, f), line),
            property,
        ) == count_on_line(p, f, line, property),
{
    let c = ByLine { size: p.cacheline_size };
    let m = Matching { filter: &f, profile: &p };
    let on_line = |x: C2cSample| c.key(x) == line && property(x);
    lemma_class_counts(c, tools::matched(p, f), line, property, on_line);
    lemma_chosen_counts(
        m,
        p.samples@,
        on_line,
        |x: C2cSample|
            filter::passes(f, p.first_timestamp_ns, x) && address::aligned(
                x.data_address,
                p.cacheline_size,
            ) == line && property(x),
    );
}

proof fn lemma_line_weight(p: C2cProfile, f: C2cFilter, line: u64)
    ensures
        total_of(
            classes::class_of((ByLine { size: p.cacheline_size }), tools::matched(p, f), line),
            |x: C2cSample| x.weight as int,
        ) == weight_on_line(p, f, line),
{
    let c = ByLine { size: p.cacheline_size };
    let m = Matching { filter: &f, profile: &p };
    let weight = |x: C2cSample| x.weight as int;
    let on_line = |x: C2cSample|
        if c.key(x) == line {
            weight(x)
        } else {
            0
        };
    lemma_class_total(c, tools::matched(p, f), line, weight, on_line);
    lemma_chosen_total(
        m,
        p.samples@,
        on_line,
        |x: C2cSample|
            if filter::passes(f, p.first_timestamp_ns, x) && address::aligned(
                x.data_address,
                p.cacheline_size,
            ) == line {
                x.weight as int
            } else {
                0
            },
    );
}

/// A class has no more samples than there are.
pub proof fn lemma_class_len<C: Classifier>(c: C, s: Seq<C2cSample>, k: C::Key)
    ensures
        classes::class_of(c, s, k).len() <= s.len(),
    decreases s.len(),
{
    if s.len() > 0 {
        lemma_class_len(c, s.drop_last(), k);
    }
}

/// What the counts of the class of a cache line are.
proof fn lemma_line_stats(p: C2cProfile, f: C2cFilter, line: u64)
    ensures
        ({
            let stats = types::stats_of(
                classes::class_of((ByLine { size: p.cacheline_size }), tools::matched(p, f), line),
            );
            &&& stats.samples == count_on_line(p, f, line, |x: C2cSample| true)
            &&& stats.loads == count_on_line(p, f, line, |x: C2cSample| x.data_source.loads())
            &&& stats.stores == count_on_line(p, f, line, |x: C2cSample| x.data_source.stores())
            &&& stats.locked == count_on_line(p, f, line, |x: C2cSample| x.data_source.locked())
            &&& stats.hitm() == count_on_line(p, f, line, |x: C2cSample| x.data_source.hitm())
            &&& stats.peer() == count_on_line(p, f, line, |x: C2cSample| x.data_source.peer())
            &&& stats.local_hitm == count_on_line(
                p,
                f,
                line,
                |x: C2cSample| x.data_source.hitm() && !x.data_source.remote(),
            )
            &&& stats.local_peer == count_on_line(
                p,
                f,
                line,
                |x: C2cSample| x.data_source.peer() && !x.data_source.remote(),
            )
            &&& stats.local_hitm + stats.remote_hitm == stats.hitm()
            &&& stats.local_peer + stats.remote_peer == stats.peer()
            &&& stats.weight_sum == weight_on_line(p, f, line)
        }),
{
    let s = tools::matched(p, f);
    let c = ByLine { size: p.cacheline_size };
    let class = classes::class_of(c, s, line);
    lemma_class_len(c, s, line);
    lemma_chosen_len((Matching { filter: &f, profile: &p }), p.samples@);
    assert(p.samples@.len() == p.samples.len());
    types::law_stats_count_accesses(class);
    law_stats_add_up_accesses(class);
    lemma_line_count(p, f, line, |x: C2cSample| true);
    lemma_all_count(class, |x: C2cSample| true);
    lemma_line_count(p, f, line, |x: C2cSample| x.data_source.loads());
    lemma_line_count(p, f, line, |x: C2cSample| x.data_source.stores());
    lemma_line_count(p, f, line, |x: C2cSample| x.data_source.locked());
    lemma_line_count(p, f, line, |x: C2cSample| x.data_source.hitm());
    lemma_line_count(p, f, line, |x: C2cSample| x.data_source.peer());
    lemma_line_count(
        p,
        f,
        line,
        |x: C2cSample| x.data_source.hitm() && !x.data_source.remote(),
    );
    lemma_line_count(
        p,
        f,
        line,
        |x: C2cSample| x.data_source.peer() && !x.data_source.remote(),
    );
    lemma_line_weight(p, f, line);
}

/// A property that every access has is counted for each.
pub proof fn lemma_all_count(s: Seq<C2cSample>, any: spec_fn(C2cSample) -> bool)
    requires
        forall|x: C2cSample| #[trigger] any(x),
    ensures
        types::count_of(s, any) == s.len(),
    decreases s.len(),
{
    if s.len() > 0 {
        lemma_all_count(s.drop_last(), any);
        assert(any(s.last()));
    }
}

proof fn lemma_line_order(sort: CachelineSort, size: u64, a: Seq<C2cSample>, b: Seq<C2cSample>)
    requires
        a.len() > 0,
        b.len() > 0,
        ({
            let x = types::stats_of(a);
            let y = types::stats_of(b);
            sort.metric(x) > sort.metric(y) || (sort.metric(x) == sort.metric(y) && (x.samples
                > y.samples || (x.samples == y.samples && address::aligned(a[0].data_address, size)
                < address::aligned(b[0].data_address, size))))
        }),
    ensures
        rank::lex_before((LineOrder { sort, size }).key(a), (LineOrder { sort, size }).key(b)),
{
    let x = types::stats_of(a);
    let y = types::stats_of(b);
    let la = rank::ascending(address::aligned(a[0].data_address, size) as int);
    let lb = rank::ascending(address::aligned(b[0].data_address, size) as int);
    let none = Seq::<i128>::empty();
    let o = LineOrder { sort, size };
    rank::lemma_ascending_leads(
        address::aligned(a[0].data_address, size) as int,
        address::aligned(b[0].data_address, size) as int,
        none,
        none,
    );
    assert(la + none =~= la);
    assert(lb + none =~= lb);
    let sa = rank::descending(x.samples as int);
    let sb = rank::descending(y.samples as int);
    rank::lemma_descending_leads(x.samples as int, y.samples as int, la, lb);
    rank::lemma_descending_leads(sort.metric(x), sort.metric(y), sa + la, sb + lb);
    assert(o.key(a) =~= rank::descending(sort.metric(x)) + (sa + la));
    assert(o.key(b) =~= rank::descending(sort.metric(y)) + (sb + lb));
}

/// What a report's rows and the cache lines of its samples have to do with
/// each other: each row is the class of its line, in falling order, and what
/// is left out is no better.
proof fn lemma_top_lines(
    r: C2cTopCachelinesResult,
    p: C2cProfile,
    req: C2cTopCachelinesRequest,
)
    requires
        tools::answers_top_cachelines(r, p, req),
        req.sort() is Some,
    ensures
        ({
            let s = tools::matched(p, req.filter());
            let c = ByLine { size: p.cacheline_size };
            let sort = req.sort()->0;
            let list = tools::line_classes(s, sort, p.cacheline_size, req.limit);
            &&& list.len() == r.cachelines@.len()
            &&& list.len() <= req.limit
            &&& list.len() <= 1000
            &&& forall|i: int|
                #![trigger list[i]]
                0 <= i < list.len() ==> {
                    let line = address::aligned(list[i][0].data_address, p.cacheline_size);
                    &&& list[i].len() > 0
                    &&& list[i] == classes::class_of(c, s, line)
                    &&& address::address_in(r.cachelines@[i].cacheline_address@) == Ok::<
                        u64,
                        Seq<char>,
                    >(line)
                }
            &&& forall|i: int, j: int|
                #![trigger list[i], list[j]]
                0 <= i < j < list.len() ==> {
                    let x = types::stats_of(list[i]);
                    let y = types::stats_of(list[j]);
                    sort.metric(x) > sort.metric(y) || (sort.metric(x) == sort.metric(y) && (
                    x.samples > y.samples || (x.samples == y.samples && address::aligned(
                        list[i][0].data_address,
                        p.cacheline_size,
                    ) <= address::aligned(list[j][0].data_address, p.cacheline_size))))
                }
            &&& forall|k: int|
                #![trigger s[k]]
                0 <= k < s.len() ==> {
                    let class = classes::class_of(
                        c,
                        s,
                        address::aligned(s[k].data_address, p.cacheline_size),
                    );
                    list.contains(class) || ((list.len() == req.limit || list.len() == 1000)
                        && forall|i: int|
                        0 <= i < list.len() ==> sort.metric(types::stats_of(class)) <= sort.metric(
                            types::stats_of(#[trigger] list[i]),
                        ))
                }
        }),
{
    let s = tools::matched(p, req.filter());
    let size = p.cacheline_size;
    let c = ByLine { size };
    let sort = req.sort()->0;
    let o = LineOrder { sort, size };
    let list = tools::line_classes(s, sort, size, req.limit);
    let better = |a: Seq<C2cSample>, b: Seq<C2cSample>|
        {
            let x = types::stats_of(a);
            let y = types::stats_of(b);
            sort.metric(x) > sort.metric(y) || (sort.metric(x) == sort.metric(y) && (x.samples
                > y.samples || (x.samples == y.samples && address::aligned(a[0].data_address, size)
                < address::aligned(b[0].data_address, size))))
        };
    assert forall|a: Seq<C2cSample>, b: Seq<C2cSample>|
        a.len() > 0 && b.len() > 0 && #[trigger] better(a, b) implies rank::lex_before(
        o.key(a),
        o.key(b),
    ) by {
        lemma_line_order(sort, size, a, b);
    }
    lemma_limited_classes(c, o, s, req.limit, better);
    assert forall|i: int, j: int|
        #![trigger list[i], list[j]]
        0 <= i < j < list.len() implies {
        let x = types::stats_of(list[i]);
        let y = types::stats_of(list[j]);
        sort.metric(x) > sort.metric(y) || (sort.metric(x) == sort.metric(y) && (x.samples
            > y.samples || (x.samples == y.samples && address::aligned(
            list[i][0].data_address,
            size,
        ) <= address::aligned(list[j][0].data_address, size))))
    } by {
        assert(!better(list[j], list[i]));
    }
    assert forall|i: int|
        #![trigger list[i]]
        0 <= i < list.len() implies {
        let line = address::aligned(list[i][0].data_address, size);
        &&& list[i].len() > 0
        &&& list[i] == classes::class_of(c, s, line)
        &&& address::address_in(r.cachelines@[i].cacheline_address@) == Ok::<u64, Seq<char>>(line)
    } by {
        assert(tools::cacheline_row(
            r.cachelines@[i],
            list[i],
            size,
            types::stats_of(s).hitm(),
        ));
        address::law_written_addresses_are_read(address::aligned(list[i][0].data_address, size));
    }
    assert forall|k: int|
        #![trigger s[k]]
        0 <= k < s.len() implies {
        let class = classes::class_of(c, s, address::aligned(s[k].data_address, size));
        list.contains(class) || ((list.len() == req.limit || list.len() == 1000) && forall|i: int|
            0 <= i < list.len() ==> sort.metric(types::stats_of(class)) <= sort.metric(
                types::stats_of(#[trigger] list[i]),
            ))
    } by {
        let class = classes::class_of(c, s, c.key(s[k]));
        if !list.contains(class) {
            assert forall|i: int| 0 <= i < list.len() implies sort.metric(types::stats_of(class))
                <= sort.metric(types::stats_of(#[trigger] list[i])) by {
                assert(!better(class, list[i]));
            }
        }
    }
}

/// A row on a cache line counts the accesses on that line that pass the
/// request's filter, each kind for itself.
pub proof fn law_rows_count_their_lines(
    r: C2cTopCachelinesResult,
    p: C2cProfile,
    req: C2cTopCachelinesRequest,
    i: int,
)
    requires
        tools::answers_top_cachelines(r, p, req),
        req.sort() is Some,
        0 <= i < r.cachelines@.len(),
    ensures
        ({
            let row = r.cachelines@[i];
            let line = address::address_in(row.cacheline_address@)->Ok_0;
            let f = req.filter();
            &&& address::address_in(row.cacheline_address@) is Ok
            &&& row.samples == count_on_line(p, f, line, |x: C2cSample| true)
            &&& row.samples > 0
            &&& row.loads == count_on_line(p, f, line, |x: C2cSample| x.data_source.loads())
            &&& row.stores == count_on_line(p, f, line, |x: C2cSample| x.data_source.stores())
            &&& row.locked == count_on_line(p, f, line, |x: C2cSample| x.data_source.locked())
            &&& row.total_hitm == count_on_line(p, f, line, |x: C2cSample| x.data_source.hitm())
            &&& row.total_peer == count_on_line(p, f, line, |x: C2cSample| x.data_source.peer())
            &&& row.local_hitm == count_on_line(
                p,
                f,
                line,
                |x: C2cSample| x.data_source.hitm() && !x.data_source.remote(),
            )
            &&& row.local_peer == count_on_line(
                p,
                f,
                line,
                |x: C2cSample| x.data_source.peer() && !x.data_source.remote(),
            )
            &&& row.local_hitm + row.remote_hitm == row.total_hitm
            &&& row.local_peer + row.remote_peer == row.total_peer
            &&& row.average_weight.sum == weight_on_line(p, f, line)
            &&& row.average_weight.count == row.samples
        }),
{
    let s = tools::matched(p, req.filter());
    let list = tools::line_classes(s, req.sort()->0, p.cacheline_size, req.limit);
    lemma_top_lines(r, p, req);
    assert(tools::cacheline_row(
        r.cachelines@[i],
        list[i],
        p.cacheline_size,
        types::stats_of(s).hitm(),
    ));
    lemma_line_stats(
        p,
        req.filter(),
        address::aligned(list[i][0].data_address, p.cacheline_size),
    );
    lemma_chosen_len((Matching { filter: &req.filter(), profile: &p }), p.samples@);
    assert(p.samples@.len() == p.samples.len());
    lemma_class_len(
        (ByLine { size: p.cacheline_size }),
        s,
        address::aligned(list[i][0].data_address, p.cacheline_size),
    );
    types::law_stats_count_accesses(list[i]);
}

/// The reported cache lines fall in what the request sorts by: the hits on
/// modified lines, the answers of peers, the samples, or the weight. Lines that
/// are alike in it fall in samples, and then rise in address.
pub proof fn law_contended_lines_lead(
    r: C2cTopCachelinesResult,
    p: C2cProfile,
    req: C2cTopCachelinesRequest,
)
    requires
        tools::answers_top_cachelines(r, p, req),
        req.sort() is Some,
    ensures
        r.cachelines@.len() <= req.limit,
        r.cachelines@.len() <= 1000,
        forall|i: int, j: int|
            #![trigger r.cachelines@[i], r.cachelines@[j]]
            0 <= i < j < r.cachelines@.len() ==> {
                let a = r.cachelines@[i];
                let b = r.cachelines@[j];
                let word = text::ascii_lower(req.sort_by@);
                let (x, y) = if word == "hitm"@ {
                    (a.total_hitm as int, b.total_hitm as int)
                } else if word == "peer"@ {
                    (a.total_peer as int, b.total_peer as int)
                } else if word == "samples"@ {
                    (a.samples as int, b.samples as int)
                } else {
                    (a.average_weight.sum as int, b.average_weight.sum as int)
                };
                &&& word == "hitm"@ || word == "peer"@ || word == "samples"@ || word == "weight"@
                &&& x > y || (x == y && (a.samples > b.samples || (a.samples == b.samples
                    && address::address_in(a.cacheline_address@)->Ok_0 <= address::address_in(
                    b.cacheline_address@,
                )->Ok_0)))
            },
{
    let s = tools::matched(p, req.filter());
    let list = tools::line_classes(s, req.sort()->0, p.cacheline_size, req.limit);
    let total = types::stats_of(s).hitm();
    lemma_top_lines(r, p, req);
    reveal_strlit("hitm");
    reveal_strlit("peer");
    reveal_strlit("samples");
    reveal_strlit("weight");
    assert("hitm"@[0] == 'h' && "peer"@[0] == 'p' && "samples"@[0] == 's' && "weight"@[0] == 'w');
    assert forall|i: int, j: int|
        #![trigger r.cachelines@[i], r.cachelines@[j]]
        0 <= i < j < r.cachelines@.len() implies {
        let a = r.cachelines@[i];
        let b = r.cachelines@[j];
        let word = text::ascii_lower(req.sort_by@);
        let (x, y) = if word == "hitm"@ {
            (a.total_hitm as int, b.total_hitm as int)
        } else if word == "peer"@ {
            (a.total_peer as int, b.total_peer as int)
        } else if word == "samples"@ {
            (a.samples as int, b.samples as int)
        } else {
            (a.average_weight.sum as int, b.average_weight.sum as int)
        };
        &&& word == "hitm"@ || word == "peer"@ || word == "samples"@ || word == "weight"@
        &&& x > y || (x == y && (a.samples > b.samples || (a.samples == b.samples
            && address::address_in(a.cacheline_address@)->Ok_0 <= address::address_in(
            b.cacheline_address@,
        )->Ok_0)))
    } by {
        assert(tools::cacheline_row(r.cachelines@[i], list[i], p.cacheline_size, total));
        assert(tools::cacheline_row(r.cachelines@[j], list[j], p.cacheline_size, total));
        assert(list[i].len() > 0 && list[j].len() > 0);
    }
}

/// The cache line of every access that passes the request's filter is reported,
/// or it is left out for the limit and then has no more of what the request
/// sorts by than any reported line.
pub proof fn law_left_out_lines_are_less(
    r: C2cTopCachelinesResult,
    p: C2cProfile,
    req: C2cTopCachelinesRequest,
    k: int,
)
    requires
        tools::answers_top_cachelines(r, p, req),
        req.sort() is Some,
        0 <= k < p.samples@.len(),
        filter::passes(req.filter(), p.first_timestamp_ns, p.samples@[k]),
    ensures
        ({
            let line = address::aligned(p.samples@[k].data_address, p.cacheline_size);
            let f = req.filter();
            let word = text::ascii_lower(req.sort_by@);
            (exists|i: int|
                #![trigger r.cachelines@[i]]
                0 <= i < r.cachelines@.len() && r.cachelines@[i].cacheline_address@
                    == text::hex_text(line as int)) || ((r.cachelines@.len() == req.limit
                || r.cachelines@.len() == 1000) && forall|i: int|
                #![trigger r.cachelines@[i]]
                0 <= i < r.cachelines@.len() ==> {
                    let row = r.cachelines@[i];
                    &&& word == "hitm"@ ==> row.total_hitm >= count_on_line(
                        p,
                        f,
                        line,
                        |x: C2cSample| x.data_source.hitm(),
                    )
                    &&& word == "peer"@ ==> row.total_peer >= count_on_line(
                        p,
                        f,
                        line,
                        |x: C2cSample| x.data_source.peer(),
                    )
                    &&& word == "samples"@ ==> row.samples >= count_on_line(
                        p,
                        f,
                        line,
                        |x: C2cSample| true,
                    )
                    &&& word == "weight"@ ==> row.average_weight.sum >= weight_on_line(p, f, line)
                })
        }),
{
    let s = tools::matched(p, req.filter());
    let size = p.cacheline_size;
    let c = ByLine { size };
    let line = address::aligned(p.samples@[k].data_address, size);
    let class = classes::class_of(c, s, line);
    let list = tools::line_classes(s, req.sort()->0, size, req.limit);
    let total = types::stats_of(s).hitm();
    let m = Matching { filter: &req.filter(), profile: &p };
    lemma_top_lines(r, p, req);
    lemma_chosen(m, p.samples@);
    assert(m.holds(p.samples@[k]));
    let q = choose|q: int| 0 <= q < s.len() && s[q] == p.samples@[k];
    assert(address::aligned(s[q].data_address, size) == line);
    lemma_line_stats(p, req.filter(), line);
    if list.contains(class) {
        let i = choose|i: int| 0 <= i < list.len() && list[i] == class;
        assert(tools::cacheline_row(r.cachelines@[i], list[i], size, total));
        classes::lemma_classes(c, s);
        lemma_class_key(c, s, line);
        assert(r.cachelines@[i].cacheline_address@ == text::hex_text(line as int));
    } else {
        reveal_strlit("hitm");
        reveal_strlit("peer");
        reveal_strlit("samples");
        reveal_strlit("weight");
        assert("hitm"@[0] == 'h' && "peer"@[0] == 'p' && "samples"@[0] == 's' && "weight"@[0]
            == 'w');
        assert forall|i: int|
            #![trigger r.cachelines@[i]]
            0 <= i < r.cachelines@.len() implies req.sort()->0.metric(types::stats_of(class))
            <= req.sort()->0.metric(types::stats_of(list[i])) && tools::cacheline_row(
            r.cachelines@[i],
            list[i],
            size,
            total,
        ) by {
            assert(list[i].len() > 0);
        }
    }
}

/// All samples of a class have its key.
pub proof fn lemma_class_key<C: Classifier>(c: C, s: Seq<C2cSample>, k: C::Key)
    ensures
        forall|i: int|
            0 <= i < classes::class_of(c, s, k).len() ==> c.key(
                #[trigger] classes::class_of(c, s, k)[i],
            ) == k,
    decreases s.len(),
{
    if s.len() > 0 {
        let before = classes::class_of(c, s.drop_last(), k);
        let after = classes::class_of(c, s, k);
        lemma_class_key(c, s.drop_last(), k);
        assert forall|i: int| 0 <= i < after.len() implies c.key(#[trigger] after[i]) == k by {
            if i < before.len() {
                assert(after[i] == before[i]);
            }
        }
    }
}

/// The share of a cache line is its part of all hits on modified lines that the
/// request matched, and these are counted over all matched accesses.
pub proof fn law_line_shares(
    r: C2cTopCachelinesResult,
    p: C2cProfile,
    req: C2cTopCachelinesRequest,
    i: int,
)
    requires
        tools::answers_top_cachelines(r, p, req),
        0 <= i < r.cachelines@.len(),
    ensures
        r.cachelines@[i].hitm_percent.part == r.cachelines@[i].total_hitm,
        r.cachelines@[i].hitm_percent.whole == r.total_matched_hitm,
        r.total_matched_hitm == types::count_of(
            p.samples@,
            |x: C2cSample|
                filter::passes(req.filter(), p.first_timestamp_ns, x) && x.data_source.hitm(),
        ),
        r.total_matched_peer == types::count_of(
            p.samples@,
            |x: C2cSample|
                filter::passes(req.filter(), p.first_timestamp_ns, x) && x.data_source.peer(),
        ),
        r.profile.matched_memory_samples == types::count_of(
            p.samples@,
            |x: C2cSample| filter::passes(req.filter(), p.first_timestamp_ns, x),
        ),
{
    let s = tools::matched(p, req.filter());
    let m = Matching { filter: &req.filter(), profile: &p };
    let any = |x: C2cSample| true;
    let lines = tools::line_classes(s, req.sort()->0, p.cacheline_size, req.limit);
    assert(tools::cacheline_row(
        r.cachelines@[i],
        lines[i],
        p.cacheline_size,
        types::stats_of(s).hitm(),
    ));
    lemma_chosen_len(m, p.samples@);
    assert(p.samples@.len() == p.samples.len());
    types::law_stats_count_accesses(s);
    lemma_chosen_counts(
        m,
        p.samples@,
        |x: C2cSample| x.data_source.hitm(),
        |x: C2cSample|
            filter::passes(req.filter(), p.first_timestamp_ns, x) && x.data_source.hitm(),
    );
    lemma_chosen_counts(
        m,
        p.samples@,
        |x: C2cSample| x.data_source.peer(),
        |x: C2cSample|
            filter::passes(req.filter(), p.first_timestamp_ns, x) && x.data_source.peer(),
    );
    lemma_chosen_counts(
        m,
        p.samples@,
        any,
        |x: C2cSample| filter::passes(req.filter(), p.first_timestamp_ns, x),
    );
    lemma_all_count(s, any);
}

/// The address that stands for an access site is the lowest one that its
/// accesses were sampled at.
pub proof fn law_sites_stand_at_their_lowest_address(s: Seq<C2cSample>, k: int)
    requires
        0 <= k < s.len(),
        forall|i: int|
            0 <= i < s.len() ==> s[k].instruction_address <= (#[trigger] s[i]).instruction_address,
    ensures
        tools::site_address(s) == text::hex_text(s[k].instruction_address as int),
{
    let list = classes::gathered(InstructionAddress, s);
    let lowest = s[k].instruction_address;
    classes::law_gathered_once_each(InstructionAddress, s);
    assert(InstructionAddress.of(s[k]) == Some(lowest));
    assert(list.contains(lowest));
    let j = choose|j: int| 0 <= j < list.len() && list[j] == lowest;
    assert(list.contains(list[0]));
    let i = choose|i: int|
        0 <= i < s.len() && InstructionAddress.of(#[trigger] s[i]) == Some(list[0]);
    assert(s[i].instruction_address == list[0]);
    if j > 0 {
        assert(<u64 as Ordered>::before(list[0], list[j]));
    }
}

}
