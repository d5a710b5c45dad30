//! Ranking by keys: a stable order over a list of integer sequences that are
//! compared lexicographically.
use vstd::prelude::*;
use vstd::string::*;
use vstd::utf8::*;

verus! {

/// Whether `a` comes before `b` in lexicographic order, looking from
/// position `i` on. A proper prefix comes before what it begins.
pub open spec fn lex_before_from(a: Seq<i128>, b: Seq<i128>, i: int) -> bool
    decreases a.len() - i,
{
    if i < 0 || i >= b.len() {
        false
    } else if i >= a.len() {
        true
    } else if a[i] != b[i] {
        a[i] < b[i]
    } else {
        lex_before_from(a, b, i + 1)
    }
}

/// Whether `a` comes before `b` in lexicographic order.
pub open spec fn lex_before(a: Seq<i128>, b: Seq<i128>) -> bool {
    lex_before_from(a, b, 0)
}

proof fn lemma_lex_trichotomy(a: Seq<i128>, b: Seq<i128>, i: int)
    requires
        0 <= i <= a.len(),
        i <= b.len(),
        a.take(i) == b.take(i),
    ensures
        a == b ==> !lex_before_from(a, b, i) && !lex_before_from(b, a, i),
        a != b ==> lex_before_from(a, b, i) != lex_before_from(b, a, i),
    decreases a.len() - i,
{
    if i < a.len() && i < b.len() && a[i] == b[i] {
        assert(a.take(i + 1) =~= a.take(i).push(a[i]));
        assert(b.take(i + 1) =~= b.take(i).push(b[i]));
        lemma_lex_trichotomy(a, b, i + 1);
    } else if i >= a.len() && i >= b.len() {
        assert(a.take(i) =~= a);
        assert(b.take(i) =~= b);
    } else if i >= a.len() || i >= b.len() {
        assert(a.len() != b.len());
    }
}

proof fn lemma_lex_transitive(a: Seq<i128>, b: Seq<i128>, c: Seq<i128>, i: int)
    requires
        0 <= i,
        lex_before_from(a, b, i),
        lex_before_from(b, c, i),
    ensures
        lex_before_from(a, c, i),
    decreases a.len() - i,
{
    if i < a.len() && i < b.len() && i < c.len() && a[i] == b[i] && b[i] == c[i] {
        lemma_lex_transitive(a, b, c, i + 1);
    }
}

/// Lexicographic order is transitive.
pub proof fn lemma_lex_before_transitive(a: Seq<i128>, b: Seq<i128>, c: Seq<i128>)
    requires
        lex_before(a, b),
        lex_before(b, c),
    ensures
        lex_before(a, c),
{
    lemma_lex_transitive(a, b, c, 0);
}

/// Whether the key at index `i` comes before the key at index `j`; equal keys
/// keep the order of their indices.
pub open spec fn key_before(keys: Seq<Seq<i128>>, i: int, j: int) -> bool {
    lex_before(keys[i], keys[j]) || (keys[i] == keys[j] && i < j)
}

/// Of two different indices exactly one comes before the other.
pub proof fn lemma_key_before_total(keys: Seq<Seq<i128>>, i: int, j: int)
    ensures
        i == j ==> !key_before(keys, i, j),
        i != j ==> key_before(keys, i, j) != key_before(keys, j, i),
{
    assert(keys[i].take(0) =~= keys[j].take(0));
    lemma_lex_trichotomy(keys[i], keys[j], 0);
}

/// The order of indices is transitive.
pub proof fn lemma_key_before_transitive(keys: Seq<Seq<i128>>, i: int, j: int, k: int)
    requires
        key_before(keys, i, j),
        key_before(keys, j, k),
    ensures
        key_before(keys, i, k),
{
    if lex_before(keys[i], keys[j]) && lex_before(keys[j], keys[k]) {
        lemma_lex_transitive(keys[i], keys[j], keys[k], 0);
    }
}

/// Whether `order` lists its indices so that each comes before all later ones.
pub open spec fn in_order(keys: Seq<Seq<i128>>, order: Seq<int>) -> bool {
    forall|p: int, q: int|
        #![trigger order[p], order[q]]
        0 <= p < q < order.len() ==> key_before(keys, order[p], order[q])
}

/// Whether `order` holds exactly the indices from `lo` up to, but not with, `hi`.
pub open spec fn covers(order: Seq<int>, lo: int, hi: int) -> bool {
    forall|x: int| #![trigger order.contains(x)] order.contains(x) <==> lo <= x < hi
}

/// Whether `order` is the stable ranking of the keys: every index once, each
/// key before all later ones, equal keys in their original order.
pub open spec fn is_ranking(keys: Seq<Seq<i128>>, order: Seq<int>) -> bool {
    in_order(keys, order) && covers(order, 0, keys.len() as int)
}

/// The stable ranking of the keys.
pub open spec fn ranking(keys: Seq<Seq<i128>>) -> Seq<int> {
    choose|order: Seq<int>| is_ranking(keys, order)
}

/// The items in the order in which their keys rank.
pub open spec fn arranged<T>(items: Seq<T>, keys: Seq<Seq<i128>>) -> Seq<T> {
    let order = ranking(keys);
    Seq::new(order.len(), |p: int| items[order[p]])
}

proof fn lemma_same_order(keys: Seq<Seq<i128>>, a: Seq<int>, b: Seq<int>)
    requires
        in_order(keys, a),
        in_order(keys, b),
        forall|x: int| a.contains(x) <==> b.contains(x),
    ensures
        a == b,
    decreases a.len(),
{
    if a.len() == 0 {
        if b.len() > 0 {
            assert(b.contains(b[0]));
            assert(a.contains(b[0]));
        }
        assert(a =~= b);
    } else if b.len() == 0 {
        assert(a.contains(a[0]));
        assert(b.contains(a[0]));
    } else {
        let x = a.last();
        let y = b.last();
        assert(a.contains(x));
        assert(b.contains(y));
        assert(b.contains(x));
        assert(a.contains(y));
        let j = choose|j: int| 0 <= j < b.len() && b[j] == x;
        let k = choose|k: int| 0 <= k < a.len() && a[k] == y;
        lemma_key_before_total(keys, x, y);
        assert(x == y) by {
            if x != y {
                assert(key_before(keys, b[j], b[b.len() - 1]));
                assert(key_before(keys, a[k], a[a.len() - 1]));
            }
        }
        let a1 = a.drop_last();
        let b1 = b.drop_last();
        assert forall|z: int| a1.contains(z) <==> b1.contains(z) by {
            if a1.contains(z) {
                let p = choose|p: int| 0 <= p < a1.len() && a1[p] == z;
                assert(a[p] == z);
                assert(a.contains(z));
                assert(b.contains(z));
                let q = choose|q: int| 0 <= q < b.len() && b[q] == z;
                assert(key_before(keys, a[p], a[a.len() - 1]));
                lemma_key_before_total(keys, z, x);
                assert(q < b.len() - 1);
                assert(b1[q] == z);
            }
            if b1.contains(z) {
                let p = choose|p: int| 0 <= p < b1.len() && b1[p] == z;
                assert(b[p] == z);
                assert(b.contains(z));
                assert(a.contains(z));
                let q = choose|q: int| 0 <= q < a.len() && a[q] == z;
                assert(key_before(keys, b[p], b[b.len() - 1]));
                lemma_key_before_total(keys, z, y);
                assert(q < a.len() - 1);
                assert(a1[q] == z);
            }
        }
        assert(in_order(keys, a1));
        assert(in_order(keys, b1));
        lemma_same_order(keys, a1, b1);
        assert(a =~= a1.push(x));
        assert(b =~= b1.push(y));
    }
}

/// The stable ranking of a list of keys is unique.
pub proof fn lemma_ranking_unique(keys: Seq<Seq<i128>>, order: Seq<int>)
    requires
        is_ranking(keys, order),
    ensures
        order == ranking(keys),
{
    assert(is_ranking(keys, ranking(keys)));
    assert forall|x: int| order.contains(x) <==> ranking(keys).contains(x) by {}
    lemma_same_order(keys, order, ranking(keys));
}

/// The numbers in each key.
pub open spec fn key_views(keys: Seq<Vec<i128>>) -> Seq<Seq<i128>> {
    Seq::new(keys.len(), |i: int| keys[i]@)
}

/// The indices as mathematical integers.
pub open spec fn as_ints(s: Seq<usize>) -> Seq<int> {
    Seq::new(s.len(), |i: int| s[i] as int)
}

/// Whether `a` comes before `b` in lexicographic order.
pub fn lex_less(a: &Vec<i128>, b: &Vec<i128>) -> (r: bool)
    ensures
        r == lex_before(a@, b@),
{
    let mut i: usize = 0;
    while i < a.len() && i < b.len()
        invariant
            i <= a@.len(),
            i <= b@.len(),
            lex_before(a@, b@) == lex_before_from(a@, b@, i as int),
        decreases a@.len() - i,
    {
        if a[i] != b[i] {
            return a[i] < b[i];
        }
        i += 1;
    }
    i < b.len()
}

proof fn lemma_covers_one(order: Seq<int>, lo: int)
    requires
        order == seq![lo],
    ensures
        covers(order, lo, lo + 1),
{
    assert forall|x: int| order.contains(x) <==> lo <= x < lo + 1 by {
        if x == lo {
            assert(order[0] == x);
        }
    }
}

proof fn lemma_push_contains(a: Seq<int>, v: int)
    ensures
        forall|x: int| a.push(v).contains(x) <==> a.contains(x) || x == v,
{
    assert forall|x: int| a.push(v).contains(x) <==> a.contains(x) || x == v by {
        if a.contains(x) {
            let p = choose|p: int| 0 <= p < a.len() && a[p] == x;
            assert(a.push(v)[p] == x);
        }
        if x == v {
            assert(a.push(v)[a.len() as int] == x);
        }
        if a.push(v).contains(x) {
            let p = choose|p: int| 0 <= p < a.push(v).len() && a.push(v)[p] == x;
            if p < a.len() {
                assert(a[p] == x);
            }
        }
    }
}

/// Merges two ordered lists of indices, all of the first below all of the second.
fn merge(keys: &Vec<Vec<i128>>, a: &Vec<usize>, b: &Vec<usize>, lo: usize, mid: usize, hi: usize)
    -> (r: Vec<usize>)
    requires
        lo <= mid <= hi <= keys@.len(),
        in_order(key_views(keys@), as_ints(a@)),
        in_order(key_views(keys@), as_ints(b@)),
        covers(as_ints(a@), lo as int, mid as int),
        covers(as_ints(b@), mid as int, hi as int),
    ensures
        in_order(key_views(keys@), as_ints(r@)),
        covers(as_ints(r@), lo as int, hi as int),
{
    let ghost ks = key_views(keys@);
    let ghost xa = as_ints(a@);
    let ghost xb = as_ints(b@);
    let mut out: Vec<usize> = Vec::new();
    let mut i: usize = 0;
    let mut j: usize = 0;
    while i < a.len() || j < b.len()
        invariant
            lo <= mid <= hi <= keys@.len(),
            ks == key_views(keys@),
            xa == as_ints(a@),
            xb == as_ints(b@),
            in_order(ks, xa),
            in_order(ks, xb),
            covers(xa, lo as int, mid as int),
            covers(xb, mid as int, hi as int),
            i <= a@.len(),
            j <= b@.len(),
            in_order(ks, as_ints(out@)),
            forall|x: int| #![trigger as_ints(out@).contains(x)]
                as_ints(out@).contains(x) <==> (xa.take(i as int).contains(x) || xb.take(
                    j as int,
                ).contains(x)),
            forall|p: int, q: int| #![trigger as_ints(out@)[p], xa[q]]
                0 <= p < out@.len() && i <= q < a@.len() ==> key_before(
                    ks,
                    as_ints(out@)[p],
                    xa[q],
                ),
            forall|p: int, q: int| #![trigger as_ints(out@)[p], xb[q]]
                0 <= p < out@.len() && j <= q < b@.len() ==> key_before(
                    ks,
                    as_ints(out@)[p],
                    xb[q],
                ),
        decreases a@.len() - i + b@.len() - j,
    {
        let ghost before = as_ints(out@);
        proof {
            if i < a@.len() {
                assert(xa.contains(xa[i as int]));
            }
            if j < b@.len() {
                assert(xb.contains(xb[j as int]));
            }
        }
        let take_first: bool = if j >= b.len() {
            true
        } else if i >= a.len() {
            false
        } else {
            proof {
                lemma_key_before_total(ks, xa[i as int], xb[j as int]);
            }
            !lex_less(&keys[b[j]], &keys[a[i]])
        };
        if take_first {
            out.push(a[i]);
            proof {
                let v = xa[i as int];
                assert(as_ints(out@) =~= before.push(v));
                lemma_push_contains(before, v);
                lemma_push_contains(xa.take(i as int), v);
                assert(xa.take(i + 1) =~= xa.take(i as int).push(v));
                assert forall|x: int| as_ints(out@).contains(x) <==> (xa.take(i + 1).contains(x)
                    || xb.take(j as int).contains(x)) by {
                    assert(before.contains(x) <==> (xa.take(i as int).contains(x) || xb.take(
                        j as int,
                    ).contains(x)));
                }
                assert forall|q: int| j <= q < b@.len() implies key_before(ks, v, #[trigger] xb[q]) by {
                    assert(key_before(ks, v, xb[j as int])) by {
                        lemma_key_before_total(ks, v, xb[j as int]);
                    }
                    if q > j {
                        assert(key_before(ks, xb[j as int], xb[q]));
                        lemma_key_before_transitive(ks, v, xb[j as int], xb[q]);
                    }
                }
            }
            i += 1;
        } else {
            out.push(b[j]);
            proof {
                let v = xb[j as int];
                assert(as_ints(out@) =~= before.push(v));
                lemma_push_contains(before, v);
                lemma_push_contains(xb.take(j as int), v);
                assert(xb.take(j + 1) =~= xb.take(j as int).push(v));
                assert forall|x: int| as_ints(out@).contains(x) <==> (xa.take(i as int).contains(x)
                    || xb.take(j + 1).contains(x)) by {
                    assert(before.contains(x) <==> (xa.take(i as int).contains(x) || xb.take(
                        j as int,
                    ).contains(x)));
                }
                assert forall|q: int| i <= q < a@.len() implies key_before(ks, v, #[trigger] xa[q]) by {
                    assert(key_before(ks, v, xa[i as int])) by {
                        lemma_key_before_total(ks, v, xa[i as int]);
                    }
                    if q > i {
                        assert(key_before(ks, xa[i as int], xa[q]));
                        lemma_key_before_transitive(ks, v, xa[i as int], xa[q]);
                    }
                }
            }
            j += 1;
        }
    }
    proof {
        assert(xa.take(a@.len() as int) =~= xa);
        assert(xb.take(b@.len() as int) =~= xb);
        assert forall|x: int| as_ints(out@).contains(x) <==> lo <= x < hi by {
            assert(as_ints(out@).contains(x) <==> (xa.contains(x) || xb.contains(x)));
        }
    }
    out
}

/// Ranks the indices from `lo` up to, but not with, `hi`.
fn rank_between(keys: &Vec<Vec<i128>>, lo: usize, hi: usize) -> (r: Vec<usize>)
    requires
        lo <= hi <= keys@.len(),
    ensures
        in_order(key_views(keys@), as_ints(r@)),
        covers(as_ints(r@), lo as int, hi as int),
    decreases hi - lo,
{
    if hi - lo == 0 {
        let out: Vec<usize> = Vec::new();
        return out;
    }
    if hi - lo == 1 {
        let mut out: Vec<usize> = Vec::new();
        out.push(lo);
        proof {
            assert(as_ints(out@) =~= seq![lo as int]);
            lemma_covers_one(as_ints(out@), lo as int);
        }
        return out;
    }
    let mid: usize = lo + (hi - lo) / 2;
    let a = rank_between(keys, lo, mid);
    let b = rank_between(keys, mid, hi);
    merge(keys, &a, &b, lo, mid, hi)
}

/// The stable ranking of the keys.
pub fn rank(keys: &Vec<Vec<i128>>) -> (r: Vec<usize>)
    ensures
        is_ranking(key_views(keys@), as_ints(r@)),
        as_ints(r@) == ranking(key_views(keys@)),
        forall|p: int| 0 <= p < r@.len() ==> r@[p] < keys@.len(),
        r@.len() == keys@.len(),
{
    let out = rank_between(keys, 0, keys.len());
    proof {
        let ks = key_views(keys@);
        lemma_ranking_unique(ks, as_ints(out@));
        assert forall|p: int| 0 <= p < out@.len() implies out@[p] < keys@.len() by {
            assert(as_ints(out@)[p] == out@[p]);
            assert(as_ints(out@).contains(out@[p] as int));
        }
        lemma_ranking_len(ks, as_ints(out@));
    }
    out
}

/// A ranking lists as many indices as there are keys, none of them twice.
pub proof fn lemma_ranking_len(keys: Seq<Seq<i128>>, order: Seq<int>)
    requires
        is_ranking(keys, order),
    ensures
        order.len() == keys.len(),
        order.no_duplicates(),
        forall|p: int| 0 <= p < order.len() ==> 0 <= #[trigger] order[p] < keys.len(),
{
    assert(order.no_duplicates()) by {
        assert forall|p: int, q: int| 0 <= p < order.len() && 0 <= q < order.len() && p != q
            implies order[p] != order[q] by {
            lemma_key_before_total(keys, order[p], order[q]);
            if p < q {
                assert(key_before(keys, order[p], order[q]));
            } else {
                assert(key_before(keys, order[q], order[p]));
            }
        }
    }
    order.unique_seq_to_set();
    let all = vstd::set_lib::set_int_range(0, keys.len() as int);
    vstd::set_lib::lemma_int_range(0, keys.len() as int);
    assert(order.to_set() =~= all) by {
        assert forall|x: int| order.to_set().contains(x) <==> all.contains(x) by {
            assert(order.to_set().contains(x) <==> order.contains(x));
        }
    }
    assert forall|p: int| 0 <= p < order.len() implies 0 <= #[trigger] order[p] < keys.len() by {
        assert(order.contains(order[p]));
    }
}

/// A count that ranks larger values first.
pub open spec fn descending(n: int) -> Seq<i128> {
    seq![(-(n / 0x1_0000_0000_0000_0000)) as i128, (-(n % 0x1_0000_0000_0000_0000)) as i128]
}

/// A number that ranks smaller values first.
pub open spec fn ascending(n: int) -> Seq<i128> {
    seq![n as i128]
}

/// A text that ranks by its bytes, a proper prefix first.
pub open spec fn textual(s: Seq<char>) -> Seq<i128> {
    let bytes = encode_utf8(s);
    Seq::new(bytes.len(), |i: int| (bytes[i] + 1) as i128).push(0)
}

/// Appends a count that ranks larger values first.
pub fn push_descending(key: &mut Vec<i128>, n: u128)
    ensures
        final(key)@ == old(key)@ + descending(n as int),
{
    let high: u128 = n / 0x1_0000_0000_0000_0000;
    let low: u128 = n % 0x1_0000_0000_0000_0000;
    assert(high < 0x1_0000_0000_0000_0000) by (nonlinear_arith)
        requires
            high == n / 0x1_0000_0000_0000_0000,
            n <= 0xffff_ffff_ffff_ffff_ffff_ffff_ffff_ffff,
    ;
    key.push(-(high as i128));
    key.push(-(low as i128));
    assert(key@ =~= old(key)@ + descending(n as int));
}

/// Appends a text that ranks by its bytes, a proper prefix first.
pub fn push_textual(key: &mut Vec<i128>, s: &str)
    ensures
        final(key)@ == old(key)@ + textual(s@),
{
    let bytes = s.as_bytes();
    let ghost start = key@;
    let ghost tail = Seq::new(bytes@.len(), |i: int| (bytes@[i] + 1) as i128);
    let mut i: usize = 0;
    while i < bytes.len()
        invariant
            i <= bytes@.len(),
            tail == Seq::new(bytes@.len(), |i: int| (bytes@[i] + 1) as i128),
            key@ == start + tail.take(i as int),
        decreases bytes@.len() - i,
    {
        key.push(bytes[i] as i128 + 1);
        assert(tail.take(i + 1) =~= tail.take(i as int).push(tail[i as int]));
        assert(key@ =~= start + tail.take(i + 1));
        i += 1;
    }
    key.push(0);
    assert(tail.take(bytes@.len() as int) =~= tail);
    assert(key@ =~= start + textual(s@));
}

/// Appends a number that ranks smaller values first.
pub fn push_ascending(key: &mut Vec<i128>, n: i128)
    ensures
        final(key)@ == old(key)@ + ascending(n as int),
{
    key.push(n);
    assert(key@ =~= old(key)@ + ascending(n as int));
}


/// The key for a falling order ranks the larger number first.
pub proof fn lemma_descending(a: int, b: int)
    requires
        0 <= a < 0x1_0000_0000_0000_0000_0000_0000_0000_0000,
        0 <= b < 0x1_0000_0000_0000_0000_0000_0000_0000_0000,
    ensures
        lex_before(descending(a), descending(b)) <==> a > b,
        descending(a) == descending(b) <==> a == b,
{
    let w = 0x1_0000_0000_0000_0000int;
    let x = descending(a);
    let y = descending(b);
    assert(0 <= a / w < w && 0 <= a % w < w && a == w * (a / w) + a % w) by (nonlinear_arith)
        requires
            w == 0x1_0000_0000_0000_0000int,
            0 <= a < w * w,
    ;
    assert(0 <= b / w < w && 0 <= b % w < w && b == w * (b / w) + b % w) by (nonlinear_arith)
        requires
            w == 0x1_0000_0000_0000_0000int,
            0 <= b < w * w,
    ;
    reveal_with_fuel(lex_before_from, 3);
    assert(x.len() == 2 && y.len() == 2);
    assert(x[0] == -(a / w) && x[1] == -(a % w));
    assert(y[0] == -(b / w) && y[1] == -(b % w));
    if a == b {
        assert(x =~= y);
    }
}


/// The keys of a list of items.
pub open spec fn keys_of<T>(items: Seq<T>, key: spec_fn(T) -> Seq<i128>) -> Seq<Seq<i128>> {
    Seq::new(items.len(), |i: int| key(items[i]))
}

/// The items in the order in which their keys rank, equal keys in their
/// original order.
pub open spec fn ranked<T>(items: Seq<T>, key: spec_fn(T) -> Seq<i128>) -> Seq<T> {
    arranged(items, keys_of(items, key))
}

/// Ranking rearranges the items: every position of the result stems from one
/// item, every item appears, and neighbours stand in key order.
pub proof fn lemma_ranked<T>(items: Seq<T>, key: spec_fn(T) -> Seq<i128>, order: Seq<int>)
    requires
        is_ranking(keys_of(items, key), order),
    ensures
        ranked(items, key).len() == items.len(),
        order == ranking(keys_of(items, key)),
        order.len() == items.len(),
        order.no_duplicates(),
        forall|p: int|
            0 <= p < items.len() ==> 0 <= #[trigger] order[p] < items.len() && ranked(items, key)[p]
                == items[order[p]],
        forall|p: int, q: int|
            #![trigger ranked(items, key)[p], ranked(items, key)[q]]
            0 <= p < q < items.len() ==> !lex_before(
                key(ranked(items, key)[q]),
                key(ranked(items, key)[p]),
            ),
{
    let keys = keys_of(items, key);
    lemma_ranking_unique(keys, order);
    lemma_ranking_len(keys, order);
    assert forall|p: int, q: int|
        #![trigger ranked(items, key)[p], ranked(items, key)[q]]
        0 <= p < q < items.len() implies !lex_before(
        key(ranked(items, key)[q]),
        key(ranked(items, key)[p]),
    ) by {
        assert(key_before(keys, order[p], order[q]));
        lemma_key_before_total(keys, order[p], order[q]);
        assert(keys[order[p]] == key(items[order[p]]));
        assert(keys[order[q]] == key(items[order[q]]));
    }
}


/// The items in the order in which their keys rank.
pub fn arrange<T>(items: Vec<T>, keys: &Vec<Vec<i128>>) -> (r: Vec<T>)
    requires
        items@.len() == keys@.len(),
    ensures
        r@ == arranged(items@, key_views(keys@)),
        r@.len() == items@.len(),
        is_ranking(key_views(keys@), ranking(key_views(keys@))),
{
    let order = rank(keys);
    let ghost ks = key_views(keys@);
    let ghost ord = as_ints(order@);
    proof {
        lemma_ranking_len(ks, ord);
    }
    let ghost all = items@;
    let mut slots: Vec<Option<T>> = Vec::new();
    for item in it: items
        invariant
            it.seq() == all,
            slots@.len() == it.index(),
            forall|k: int| 0 <= k < slots@.len() ==> #[trigger] slots@[k] == Some(all[k]),
    {
        slots.push(Some(item));
    }
    let mut out: Vec<T> = Vec::new();
    let mut p: usize = 0;
    while p < order.len()
        invariant
            p <= order@.len(),
            ord == as_ints(order@),
            ord.no_duplicates(),
            slots@.len() == all.len(),
            order@.len() == all.len(),
            forall|k: int| 0 <= k < order@.len() ==> #[trigger] order@[k] < all.len(),
            out@.len() == p,
            forall|k: int| 0 <= k < p ==> #[trigger] out@[k] == all[order@[k] as int],
            forall|k: int| p <= k < order@.len() ==> slots@[#[trigger] order@[k] as int] == Some(
                all[order@[k] as int],
            ),
        decreases order@.len() - p,
    {
        let position: usize = order[p];
        assert(slots@[order@[p as int] as int] == Some(all[position as int]));
        let slot = slots[position].take();
        proof {
            assert forall|k: int| p + 1 <= k < order@.len() implies slots@[#[trigger] order@[k] as int]
                == Some(all[order@[k] as int]) by {
                assert(ord[k] != ord[p as int]);
            }
        }
        if let Some(item) = slot {
            out.push(item);
        }
        p += 1;
    }
    assert(out@ =~= arranged(all, ks)) by {
        assert(ord == ranking(ks));
    }
    out
}


/// Arranging and then looking at each item through a function is the same as
/// looking first and arranging then.
pub proof fn lemma_arranged_map<T, U>(items: Seq<T>, keys: Seq<Seq<i128>>, f: spec_fn(T) -> U)
    requires
        is_ranking(keys, ranking(keys)),
        items.len() == keys.len(),
    ensures
        arranged(items, keys).len() == items.len(),
        Seq::new(items.len(), |p: int| f(arranged(items, keys)[p])) == arranged(
            Seq::new(items.len(), |p: int| f(items[p])),
            keys,
        ),
{
    lemma_ranking_len(keys, ranking(keys));
    assert(Seq::new(items.len(), |p: int| f(arranged(items, keys)[p])) =~= arranged(
        Seq::new(items.len(), |p: int| f(items[p])),
        keys,
    ));
}


/// An optional text that ranks by its bytes, none first.
pub open spec fn opt_textual(s: Option<Seq<char>>) -> Seq<i128> {
    match s {
        Some(s) => ascending(1) + textual(s),
        None => ascending(0),
    }
}

/// An optional number that ranks smaller values first, none before all.
pub open spec fn opt_ascending(n: Option<int>) -> Seq<i128> {
    match n {
        Some(n) => ascending(1) + ascending(n),
        None => ascending(0),
    }
}

/// Appends an optional text that ranks by its bytes, none first.
pub fn push_opt_textual(key: &mut Vec<i128>, s: &Option<String>)
    ensures
        final(key)@ == old(key)@ + opt_textual(crate::text::opt(*s)),
{
    match s {
        Some(s) => {
            push_ascending(key, 1);
            push_textual(key, s.as_str());
        },
        None => {
            push_ascending(key, 0);
        },
    }
    assert(key@ =~= old(key)@ + opt_textual(crate::text::opt(*s)));
}

/// A number as a mathematical integer.
pub open spec fn opt_int(n: Option<u64>) -> Option<int> {
    match n {
        Some(n) => Some(n as int),
        None => None,
    }
}

/// Appends an optional number that ranks smaller values first, none before all.
pub fn push_opt_ascending(key: &mut Vec<i128>, n: Option<u64>)
    ensures
        final(key)@ == old(key)@ + opt_ascending(opt_int(n)),
{
    match n {
        Some(n) => {
            push_ascending(key, 1);
            push_ascending(key, n as i128);
        },
        None => {
            push_ascending(key, 0);
        },
    }
    assert(key@ =~= old(key)@ + opt_ascending(opt_int(n)));
}

proof fn lemma_insertion_point(keys: Seq<Seq<i128>>, order: Seq<int>, x: int, m: int) -> (p: int)
    requires
        0 <= m <= order.len(),
        in_order(keys, order),
        !order.contains(x),
    ensures
        0 <= p <= m,
        forall|q: int| 0 <= q < p ==> key_before(keys, #[trigger] order[q], x),
        forall|q: int| p <= q < m ==> key_before(keys, x, #[trigger] order[q]),
    decreases m,
{
    if m == 0 {
        0
    } else {
        let before = lemma_insertion_point(keys, order, x, m - 1);
        assert(order.contains(order[m - 1]));
        lemma_key_before_total(keys, order[m - 1], x);
        if key_before(keys, order[m - 1], x) {
            assert forall|q: int| 0 <= q < m implies key_before(keys, #[trigger] order[q], x) by {
                if q < m - 1 {
                    lemma_key_before_transitive(keys, order[q], order[m - 1], x);
                }
            }
            m
        } else {
            before
        }
    }
}

proof fn lemma_prefix_ranks(keys: Seq<Seq<i128>>, n: int) -> (order: Seq<int>)
    requires
        0 <= n <= keys.len(),
    ensures
        in_order(keys, order),
        covers(order, 0, n),
    decreases n,
{
    if n == 0 {
        Seq::empty()
    } else {
        let x = n - 1;
        let before = lemma_prefix_ranks(keys, x);
        assert(!before.contains(x));
        let p = lemma_insertion_point(keys, before, x, before.len() as int);
        let after = before.insert(p, x);
        assert forall|a: int, b: int|
            #![trigger after[a], after[b]]
            0 <= a < b < after.len() implies key_before(keys, after[a], after[b]) by {
            if a < p {
                assert(after[a] == before[a]);
            } else if a > p {
                assert(after[a] == before[a - 1]);
            }
            if b < p {
                assert(after[b] == before[b]);
            } else if b > p {
                assert(after[b] == before[b - 1]);
            }
        }
        assert forall|v: int| after.contains(v) <==> 0 <= v < n by {
            if after.contains(v) && v != x {
                let q = choose|q: int| 0 <= q < after.len() && after[q] == v;
                if q < p {
                    assert(before[q] == v);
                } else {
                    assert(before[q - 1] == v);
                }
                assert(before.contains(v));
            }
            if 0 <= v < n {
                if v == x {
                    assert(after[p] == v);
                } else {
                    assert(before.contains(v));
                    let q = choose|q: int| 0 <= q < before.len() && before[q] == v;
                    if q < p {
                        assert(after[q] == v);
                    } else {
                        assert(after[q + 1] == v);
                    }
                }
            }
        }
        after
    }
}

proof fn lemma_permuted<T>(items: Seq<T>, order: Seq<int>)
    requires
        order.len() == items.len(),
        order.no_duplicates(),
        covers(order, 0, items.len() as int),
    ensures
        Seq::new(order.len(), |p: int| items[order[p]]).to_multiset() == items.to_multiset(),
    decreases items.len(),
{
    broadcast use vstd::seq_lib::group_to_multiset_ensures;

    let out = Seq::new(order.len(), |p: int| items[order[p]]);
    let n = items.len() as int;
    if n == 0 {
        assert(out =~= items);
    } else {
        assert(order.contains(n - 1));
        let at = choose|p: int| 0 <= p < order.len() && order[p] == n - 1;
        let rest = order.remove(at);
        let less = items.drop_last();
        assert forall|v: int| rest.contains(v) <==> 0 <= v < n - 1 by {
            if rest.contains(v) {
                let q = choose|q: int| 0 <= q < rest.len() && rest[q] == v;
                let was = if q < at {
                    q
                } else {
                    q + 1
                };
                assert(order[was] == v);
                assert(order.contains(v));
            }
            if 0 <= v < n - 1 {
                assert(order.contains(v));
                let q = choose|q: int| 0 <= q < order.len() && order[q] == v;
                if q < at {
                    assert(rest[q] == v);
                } else {
                    assert(rest[q - 1] == v);
                }
            }
        }
        lemma_permuted(less, rest);
        assert forall|q: int| 0 <= q < rest.len() implies 0 <= #[trigger] rest[q] < n - 1 by {
            assert(rest.contains(rest[q]));
        }
        assert(out.remove(at) =~= Seq::new(rest.len(), |p: int| less[rest[p]]));
        assert(items.remove(n - 1) =~= less);
        let x = items[n - 1];
        assert(out[at] == x);
        assert(out.contains(x) && items.contains(x));
        assert(out.to_multiset() =~= out.remove(at).to_multiset().insert(x));
        assert(items.to_multiset() =~= less.to_multiset().insert(x));
    }
}

/// Ranking keeps every item, as often as it occurs, and puts no item before
/// one whose key comes first.
pub proof fn law_ranking_rearranges<T>(items: Seq<T>, key: spec_fn(T) -> Seq<i128>)
    ensures
        ranked(items, key).to_multiset() == items.to_multiset(),
        ranked(items, key).len() == items.len(),
        forall|p: int, q: int|
            #![trigger ranked(items, key)[p], ranked(items, key)[q]]
            0 <= p < q < items.len() ==> !lex_before(
                key(ranked(items, key)[q]),
                key(ranked(items, key)[p]),
            ),
{
    let keys = keys_of(items, key);
    let order = lemma_prefix_ranks(keys, keys.len() as int);
    assert(is_ranking(keys, order));
    lemma_ranked(items, key, order);
    lemma_permuted(items, order);
}

proof fn lemma_lex_head(a: Seq<i128>, b: Seq<i128>, u: Seq<i128>, v: Seq<i128>, i: int)
    requires
        a.len() == b.len(),
        0 <= i <= a.len(),
        lex_before_from(a, b, i),
    ensures
        lex_before_from(a + u, b + v, i),
    decreases a.len() - i,
{
    if i < a.len() && a[i] == b[i] {
        lemma_lex_head(a, b, u, v, i + 1);
    }
}

proof fn lemma_lex_tail(a: Seq<i128>, u: Seq<i128>, v: Seq<i128>, i: int)
    requires
        0 <= i <= a.len(),
        lex_before(u, v),
    ensures
        lex_before_from(a + u, a + v, i),
    decreases a.len() - i,
{
    if i < a.len() {
        lemma_lex_tail(a, u, v, i + 1);
    } else {
        lemma_lex_shifted(a, u, v, 0);
    }
}

proof fn lemma_lex_shifted(a: Seq<i128>, u: Seq<i128>, v: Seq<i128>, i: int)
    requires
        0 <= i,
        lex_before_from(u, v, i),
    ensures
        lex_before_from(a + u, a + v, a.len() + i),
    decreases u.len() - i,
{
    if i < u.len() && i < v.len() && u[i] == v[i] {
        lemma_lex_shifted(a, u, v, i + 1);
    }
}

/// Keys of two parts go by the first parts, and by the second ones where the
/// first are equal.
pub proof fn lemma_lex_parts(a: Seq<i128>, b: Seq<i128>, u: Seq<i128>, v: Seq<i128>)
    requires
        a.len() == b.len(),
    ensures
        lex_before(a, b) ==> lex_before(a + u, b + v),
        a == b && lex_before(u, v) ==> lex_before(a + u, b + v),
{
    if lex_before(a, b) {
        lemma_lex_head(a, b, u, v, 0);
    }
    if a == b && lex_before(u, v) {
        lemma_lex_tail(a, u, v, 0);
    }
}

/// A key that begins with a number in falling order puts greater numbers
/// first, whatever follows.
pub proof fn lemma_descending_leads(a: int, b: int, u: Seq<i128>, v: Seq<i128>)
    requires
        0 <= a < 0x1_0000_0000_0000_0000_0000_0000_0000_0000,
        0 <= b < 0x1_0000_0000_0000_0000_0000_0000_0000_0000,
    ensures
        a > b ==> lex_before(descending(a) + u, descending(b) + v),
        a == b && lex_before(u, v) ==> lex_before(descending(a) + u, descending(b) + v),
{
    lemma_descending(a, b);
    lemma_lex_parts(descending(a), descending(b), u, v);
}

/// A key that begins with a number in rising order puts smaller numbers
/// first, whatever follows.
pub proof fn lemma_ascending_leads(a: int, b: int, u: Seq<i128>, v: Seq<i128>)
    requires
        i128::MIN <= a <= i128::MAX,
        i128::MIN <= b <= i128::MAX,
    ensures
        a < b ==> lex_before(ascending(a) + u, ascending(b) + v),
        a == b && lex_before(u, v) ==> lex_before(ascending(a) + u, ascending(b) + v),
{
    lemma_lex_parts(ascending(a), ascending(b), u, v);
}

/// Where the keys put what is better first, nothing in the ranking is better
/// than what stands before it, and the ranking has every item and no other.
pub proof fn lemma_ranked_prefers<T>(
    items: Seq<T>,
    key: spec_fn(T) -> Seq<i128>,
    better: spec_fn(T, T) -> bool,
)
    requires
        forall|i: int, j: int|
            #![trigger items[i], items[j]]
            0 <= i < items.len() && 0 <= j < items.len() && better(items[i], items[j])
                ==> lex_before(key(items[i]), key(items[j])),
    ensures
        ranked(items, key).len() == items.len(),
        ranked(items, key).to_multiset() == items.to_multiset(),
        forall|p: int, q: int|
            #![trigger ranked(items, key)[p], ranked(items, key)[q]]
            0 <= p < q < items.len() ==> !better(ranked(items, key)[q], ranked(items, key)[p]),
        forall|i: int|
            0 <= i < items.len() ==> ranked(items, key).contains(#[trigger] items[i]),
        forall|p: int|
            0 <= p < items.len() ==> items.contains(#[trigger] ranked(items, key)[p]),
{
    law_ranking_rearranges(items, key);
    let keys = keys_of(items, key);
    let order = lemma_prefix_ranks(keys, keys.len() as int);
    assert(is_ranking(keys, order));
    lemma_ranked(items, key, order);
    let all = ranked(items, key);
    assert forall|p: int| 0 <= p < items.len() implies items.contains(#[trigger] all[p]) by {
        assert(0 <= order[p] < items.len() && all[p] == items[order[p]]);
    }
    assert forall|i: int| 0 <= i < items.len() implies all.contains(#[trigger] items[i]) by {
        assert(order.contains(i));
        let p = choose|p: int| 0 <= p < order.len() && order[p] == i;
        assert(all[p] == items[order[p]]);
    }
    assert forall|p: int, q: int|
        #![trigger all[p], all[q]]
        0 <= p < q < items.len() implies !better(all[q], all[p]) by {
        assert(all[p] == items[order[p]]);
        assert(all[q] == items[order[q]]);
    }
}

/// Items with equal keys stay in the order in which they came: the ranking
/// lists every item once, and of two with the same key the earlier one first.
pub proof fn law_ranking_is_stable<T>(items: Seq<T>, key: spec_fn(T) -> Seq<i128>)
    ensures
        exists|order: Seq<int>|
            #![trigger order.no_duplicates()]
            {
                &&& order.no_duplicates()
                &&& order.len() == items.len()
                &&& ranked(items, key).len() == items.len()
                &&& forall|p: int|
                    0 <= p < items.len() ==> 0 <= #[trigger] order[p] < items.len() && ranked(
                        items,
                        key,
                    )[p] == items[order[p]]
                &&& forall|p: int, q: int|
                    #![trigger order[p], order[q]]
                    0 <= p < q < items.len() && key(items[order[p]]) == key(items[order[q]])
                        ==> order[p] < order[q]
            },
{
    let keys = keys_of(items, key);
    let order = lemma_prefix_ranks(keys, keys.len() as int);
    assert(is_ranking(keys, order));
    lemma_ranked(items, key, order);
    assert forall|p: int, q: int|
        #![trigger order[p], order[q]]
        0 <= p < q < items.len() && key(items[order[p]]) == key(items[order[q]]) implies order[p]
        < order[q] by {
        assert(key_before(keys, order[p], order[q]));
        lemma_key_before_total(keys, order[p], order[q]);
        assert(keys[order[p]] == keys[order[q]]);
        assert(keys[order[p]].take(0) =~= keys[order[q]].take(0));
        lemma_lex_trichotomy(keys[order[p]], keys[order[q]], 0);
    }
    assert(order.no_duplicates());
}

proof fn lemma_lex_at(a: Seq<i128>, b: Seq<i128>, i: int, n: int)
    requires
        0 <= i <= n < a.len(),
        n < b.len(),
        forall|j: int| 0 <= j < n ==> a[j] == b[j],
        a[n] < b[n],
    ensures
        lex_before_from(a, b, i),
    decreases n - i,
{
    if i < n {
        lemma_lex_at(a, b, i + 1, n);
    }
}

/// Whether bytes come before others in a dictionary: they are a shorter start
/// of them, or have a smaller byte where the two first differ.
pub open spec fn spelled_before(a: Seq<u8>, b: Seq<u8>) -> bool {
    exists|i: int|
        #![trigger a.take(i)]
        0 <= i <= a.len() && i < b.len() && a.take(i) == b.take(i) && (i == a.len() || a[i] < b[i])
}

/// A key that begins with a text puts texts in the order of a dictionary of
/// their UTF-8 bytes, whatever follows.
pub proof fn lemma_textual_leads(a: Seq<char>, b: Seq<char>, u: Seq<i128>, v: Seq<i128>)
    ensures
        spelled_before(encode_utf8(a), encode_utf8(b)) ==> lex_before(
            textual(a) + u,
            textual(b) + v,
        ),
        a == b && lex_before(u, v) ==> lex_before(textual(a) + u, textual(b) + v),
{
    let x = encode_utf8(a);
    let y = encode_utf8(b);
    if spelled_before(x, y) {
        let n = choose|i: int|
            #![trigger x.take(i)]
            0 <= i <= x.len() && i < y.len() && x.take(i) == y.take(i) && (i == x.len() || x[i]
                < y[i]);
        let p = textual(a) + u;
        let q = textual(b) + v;
        assert forall|j: int| 0 <= j < n implies p[j] == q[j] by {
            assert(x.take(n)[j] == y.take(n)[j]);
        }
        lemma_lex_at(p, q, 0, n);
    }
    if a == b {
        lemma_lex_parts(textual(a), textual(b), u, v);
    }
}

}
