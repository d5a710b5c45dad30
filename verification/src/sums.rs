//! Sums over lists.
use vstd::prelude::*;

verus! {

/// The sum of a quantity over a list.
pub open spec fn sum_of<T>(s: Seq<T>, f: spec_fn(T) -> nat) -> nat
    decreases s.len(),
{
    if s.len() == 0 {
        0
    } else {
        sum_of(s.drop_last(), f) + f(s.last())
    }
}

/// One item less takes its quantity out of the sum.
pub proof fn lemma_sum_without<T>(s: Seq<T>, f: spec_fn(T) -> nat, p: int)
    requires
        0 <= p < s.len(),
    ensures
        sum_of(s, f) == sum_of(s.remove(p), f) + f(s[p]),
    decreases s.len(),
{
    if p == s.len() - 1 {
        assert(s.remove(p) =~= s.drop_last());
    } else {
        lemma_sum_without(s.drop_last(), f, p);
        assert(s.drop_last().remove(p) =~= s.remove(p).drop_last());
        assert(s.remove(p).last() == s.last());
    }
}

/// One item replaced changes the sum by the difference.
pub proof fn lemma_sum_with<T>(s: Seq<T>, f: spec_fn(T) -> nat, p: int, item: T)
    requires
        0 <= p < s.len(),
    ensures
        sum_of(s.update(p, item), f) + f(s[p]) == sum_of(s, f) + f(item),
        f(s[p]) <= sum_of(s, f),
{
    lemma_sum_without(s, f, p);
    lemma_sum_without(s.update(p, item), f, p);
    assert(s.update(p, item).remove(p) =~= s.remove(p));
}

/// The sum of two lists, one after the other.
pub proof fn lemma_sum_concat<T>(a: Seq<T>, b: Seq<T>, f: spec_fn(T) -> nat)
    ensures
        sum_of(a + b, f) == sum_of(a, f) + sum_of(b, f),
    decreases b.len(),
{
    if b.len() == 0 {
        assert(a + b =~= a);
    } else {
        lemma_sum_concat(a, b.drop_last(), f);
        assert((a + b).drop_last() =~= a + b.drop_last());
    }
}

/// Lists with the same items in any order have the same sum.
pub proof fn lemma_sum_same_items<T>(a: Seq<T>, b: Seq<T>, f: spec_fn(T) -> nat)
    requires
        a.to_multiset() == b.to_multiset(),
    ensures
        sum_of(a, f) == sum_of(b, f),
    decreases a.len(),
{
    broadcast use vstd::seq_lib::group_to_multiset_ensures;

    assert(a.len() == a.to_multiset().len() && b.len() == b.to_multiset().len());
    if a.len() > 0 {
        let x = a.last();
        assert(a.contains(x));
        assert(b.to_multiset().count(x) > 0);
        let p = choose|p: int| 0 <= p < b.len() && b[p] == x;
        assert(a.remove(a.len() - 1) =~= a.drop_last());
        assert(b.remove(p).to_multiset() == b.to_multiset().remove(x));
        lemma_sum_same_items(a.drop_last(), b.remove(p), f);
        lemma_sum_without(b, f, p);
    }
}

/// Quantities that agree on every item give the same sum.
pub proof fn lemma_sum_same<T>(s: Seq<T>, f: spec_fn(T) -> nat, g: spec_fn(T) -> nat)
    requires
        forall|i: int| 0 <= i < s.len() ==> f(#[trigger] s[i]) == g(s[i]),
    ensures
        sum_of(s, f) == sum_of(s, g),
    decreases s.len(),
{
    if s.len() > 0 {
        let less = s.drop_last();
        assert forall|i: int| 0 <= i < less.len() implies f(#[trigger] less[i]) == g(less[i]) by {
            assert(less[i] == s[i]);
        }
        lemma_sum_same(less, f, g);
    }
}

/// A quantity that is larger on one item, and the same on all others, has a
/// sum that is larger by as much.
pub proof fn lemma_sum_raised<T>(
    s: Seq<T>,
    f: spec_fn(T) -> nat,
    g: spec_fn(T) -> nat,
    p: int,
    by: nat,
)
    requires
        0 <= p < s.len(),
        f(s[p]) == g(s[p]) + by,
        forall|i: int| 0 <= i < s.len() && i != p ==> f(#[trigger] s[i]) == g(s[i]),
    ensures
        sum_of(s, f) == sum_of(s, g) + by,
{
    let rest = s.remove(p);
    assert forall|i: int| 0 <= i < rest.len() implies f(#[trigger] rest[i]) == g(rest[i]) by {
        let was = if i < p {
            i
        } else {
            i + 1
        };
        assert(rest[i] == s[was]);
    }
    lemma_sum_same(rest, f, g);
    lemma_sum_without(s, f, p);
    lemma_sum_without(s, g, p);
}

}
