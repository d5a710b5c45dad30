//! Sets kept as strictly rising lists.
use crate::rank;
use vstd::prelude::*;
use vstd::utf8::*;

verus! {

/// A type whose values stand in a strict total order.
pub trait Ordered: Sized {
    /// What a value is, as mathematics.
    type Model;

    /// What this value is.
    spec fn model(&self) -> Self::Model;

    /// Whether one value comes before another.
    spec fn before(a: Self::Model, b: Self::Model) -> bool;

    /// Of two different values exactly one comes before the other.
    proof fn total(a: Self::Model, b: Self::Model)
        ensures
            a == b ==> !Self::before(a, b),
            a != b ==> Self::before(a, b) != Self::before(b, a),
    ;

    /// The order is transitive.
    proof fn transitive(a: Self::Model, b: Self::Model, c: Self::Model)
        requires
            Self::before(a, b),
            Self::before(b, c),
        ensures
            Self::before(a, c),
    ;

    /// Whether two values are the same.
    fn same(&self, other: &Self) -> (r: bool)
        ensures
            r == (self.model() == other.model()),
    ;

    /// Whether this value comes before another.
    fn less(&self, other: &Self) -> (r: bool)
        ensures
            r == Self::before(self.model(), other.model()),
    ;
}

impl Ordered for u64 {
    type Model = u64;

    open spec fn model(&self) -> u64 {
        *self
    }

    open spec fn before(a: u64, b: u64) -> bool {
        a < b
    }

    proof fn total(a: u64, b: u64) {
    }

    proof fn transitive(a: u64, b: u64, c: u64) {
    }

    fn same(&self, other: &Self) -> (r: bool) {
        *self == *other
    }

    fn less(&self, other: &Self) -> (r: bool) {
        *self < *other
    }
}

impl Ordered for u32 {
    type Model = u32;

    open spec fn model(&self) -> u32 {
        *self
    }

    open spec fn before(a: u32, b: u32) -> bool {
        a < b
    }

    proof fn total(a: u32, b: u32) {
    }

    proof fn transitive(a: u32, b: u32, c: u32) {
    }

    fn same(&self, other: &Self) -> (r: bool) {
        *self == *other
    }

    fn less(&self, other: &Self) -> (r: bool) {
        *self < *other
    }
}

impl Ordered for i32 {
    type Model = i32;

    open spec fn model(&self) -> i32 {
        *self
    }

    open spec fn before(a: i32, b: i32) -> bool {
        a < b
    }

    proof fn total(a: i32, b: i32) {
    }

    proof fn transitive(a: i32, b: i32, c: i32) {
    }

    fn same(&self, other: &Self) -> (r: bool) {
        *self == *other
    }

    fn less(&self, other: &Self) -> (r: bool) {
        *self < *other
    }
}

impl Ordered for (i32, u64) {
    type Model = (i32, u64);

    open spec fn model(&self) -> (i32, u64) {
        *self
    }

    open spec fn before(a: (i32, u64), b: (i32, u64)) -> bool {
        a.0 < b.0 || (a.0 == b.0 && a.1 < b.1)
    }

    proof fn total(a: (i32, u64), b: (i32, u64)) {
    }

    proof fn transitive(a: (i32, u64), b: (i32, u64), c: (i32, u64)) {
    }

    fn same(&self, other: &Self) -> (r: bool) {
        self.0 == other.0 && self.1 == other.1
    }

    fn less(&self, other: &Self) -> (r: bool) {
        self.0 < other.0 || (self.0 == other.0 && self.1 < other.1)
    }
}

proof fn lemma_textual_injective(a: Seq<char>, b: Seq<char>)
    requires
        rank::textual(a) == rank::textual(b),
    ensures
        a == b,
{
    let x = encode_utf8(a);
    let y = encode_utf8(b);
    assert(rank::textual(a).len() == x.len() + 1);
    assert(rank::textual(b).len() == y.len() + 1);
    assert(x =~= y) by {
        assert forall|i: int| 0 <= i < x.len() implies x[i] == y[i] by {
            assert(rank::textual(a)[i] == x[i] + 1);
            assert(rank::textual(b)[i] == y[i] + 1);
        }
    }
    encode_utf8_decode_utf8(a);
    encode_utf8_decode_utf8(b);
}

impl Ordered for String {
    type Model = Seq<char>;

    open spec fn model(&self) -> Seq<char> {
        self@
    }

    open spec fn before(a: Seq<char>, b: Seq<char>) -> bool {
        rank::lex_before(rank::textual(a), rank::textual(b))
    }

    proof fn total(a: Seq<char>, b: Seq<char>) {
        let keys = seq![rank::textual(a), rank::textual(b)];
        rank::lemma_key_before_total(keys, 0, 1);
        rank::lemma_key_before_total(keys, 0, 0);
        if a != b && rank::textual(a) == rank::textual(b) {
            lemma_textual_injective(a, b);
        }
    }

    proof fn transitive(a: Seq<char>, b: Seq<char>, c: Seq<char>) {
        rank::lemma_lex_before_transitive(rank::textual(a), rank::textual(b), rank::textual(c));
    }

    fn same(&self, other: &Self) -> (r: bool) {
        *self == *other
    }

    fn less(&self, other: &Self) -> (r: bool) {
        let mut x: Vec<i128> = Vec::new();
        rank::push_textual(&mut x, self.as_str());
        let mut y: Vec<i128> = Vec::new();
        rank::push_textual(&mut y, other.as_str());
        assert(x@ =~= rank::textual(self@));
        assert(y@ =~= rank::textual(other@));
        rank::lex_less(&x, &y)
    }
}

/// A rising list after one more element, which is left out where it is there already.
pub open spec fn inserted<T: Ordered>(s: Seq<T::Model>, x: T::Model) -> Seq<T::Model>
    decreases s.len(),
{
    if s.len() == 0 {
        seq![x]
    } else if T::before(s.last(), x) {
        s.push(x)
    } else if s.last() == x {
        s
    } else {
        inserted::<T>(s.drop_last(), x).push(s.last())
    }
}

/// Whether each element comes before all later ones.
pub open spec fn rising<T: Ordered>(s: Seq<T::Model>) -> bool {
    forall|i: int, j: int|
        #![trigger s[i], s[j]]
        0 <= i < j < s.len() ==> T::before(s[i], s[j])
}

/// Inserting keeps a list rising and adds exactly the one element.
pub proof fn lemma_inserted<T: Ordered>(s: Seq<T::Model>, x: T::Model)
    requires
        rising::<T>(s),
    ensures
        rising::<T>(inserted::<T>(s, x)),
        forall|y: T::Model| #[trigger] inserted::<T>(s, x).contains(y) <==> s.contains(y) || y == x,
    decreases s.len(),
{
    let r = inserted::<T>(s, x);
    if s.len() == 0 {
        assert forall|y: T::Model| #[trigger] r.contains(y) <==> s.contains(y) || y == x by {
            assert(r[0] == x);
        }
    } else if T::before(s.last(), x) {
        assert forall|i: int, j: int|
            #![trigger r[i], r[j]]
            0 <= i < j < r.len() implies T::before(r[i], r[j]) by {
            if j == s.len() && i < s.len() - 1 {
                assert(T::before(s[i], s[s.len() - 1]));
                T::transitive(s[i], s.last(), x);
            }
        }
        lemma_push_elements(s, x);
    } else if s.last() == x {
        assert(s[s.len() - 1] == x);
    } else {
        let rest = s.drop_last();
        let last = s.last();
        assert forall|i: int, j: int|
            #![trigger rest[i], rest[j]]
            0 <= i < j < rest.len() implies T::before(rest[i], rest[j]) by {
            assert(rest[i] == s[i] && rest[j] == s[j]);
        }
        lemma_inserted::<T>(rest, x);
        T::total(last, x);
        let inner = inserted::<T>(rest, x);
        assert forall|i: int, j: int|
            #![trigger r[i], r[j]]
            0 <= i < j < r.len() implies T::before(r[i], r[j]) by {
            if j == inner.len() {
                assert(inner.contains(inner[i]));
                if inner[i] != x {
                    let k = choose|k: int| 0 <= k < rest.len() && rest[k] == inner[i];
                    assert(T::before(s[k], s[s.len() - 1]));
                }
            }
        }
        lemma_push_elements(inner, last);
        lemma_push_elements(rest, last);
        assert(rest.push(last) =~= s);
        assert forall|y: T::Model| #[trigger] r.contains(y) <==> s.contains(y) || y == x by {
            assert(inner.contains(y) <==> rest.contains(y) || y == x);
            assert(rest.push(last).contains(y) <==> rest.contains(y) || y == last);
        }
    }
}

proof fn lemma_push_elements<A>(s: Seq<A>, x: A)
    ensures
        forall|y: A| #[trigger] s.push(x).contains(y) <==> s.contains(y) || y == x,
{
    assert forall|y: A| #[trigger] s.push(x).contains(y) <==> s.contains(y) || y == x by {
        if s.contains(y) {
            let i = choose|i: int| 0 <= i < s.len() && s[i] == y;
            assert(s.push(x)[i] == y);
        }
        if y == x {
            assert(s.push(x)[s.len() as int] == y);
        }
        if s.push(x).contains(y) {
            let i = choose|i: int| 0 <= i < s.push(x).len() && s.push(x)[i] == y;
            if i < s.len() {
                assert(s[i] == y);
            }
        }
    }
}

/// What a list of values is.
pub open spec fn models<T: Ordered>(s: Seq<T>) -> Seq<T::Model> {
    Seq::new(s.len(), |i: int| s[i].model())
}

/// Adds an element to a rising list.
pub fn insert<T: Ordered>(items: &mut Vec<T>, x: T)
    ensures
        models(final(items)@) == inserted::<T>(models(old(items)@), x.model()),
{
    let ghost all = models(items@);
    let mut p: usize = items.len();
    proof {
        assert(all.take(p as int) =~= all);
        assert(inserted::<T>(all, x.model()) =~= inserted::<T>(all.take(p as int), x.model())
            + all.skip(p as int));
    }
    while p > 0
        invariant
            p <= items@.len(),
            all == models(items@),
            inserted::<T>(all, x.model()) == inserted::<T>(all.take(p as int), x.model())
                + all.skip(p as int),
        ensures
            inserted::<T>(all.take(p as int), x.model()) =~= all.take(p as int).push(x.model()),
        decreases p,
    {
        let ghost head = all.take(p as int);
        assert(head.last() == items@[p - 1].model());
        if items[p - 1].less(&x) {
            proof {
                assert(inserted::<T>(head, x.model()) == head.push(x.model()));
            }
            break;
        }
        if items[p - 1].same(&x) {
            assert(head + all.skip(p as int) =~= all);
            return;
        }
        proof {
            assert(head.drop_last() =~= all.take(p - 1));
            assert(inserted::<T>(all, x.model()) =~= inserted::<T>(all.take(p - 1), x.model())
                + all.skip(p - 1));
        }
        p -= 1;
    }
    items.insert(p, x);
    proof {
        assert(models(items@) =~= all.take(p as int).push(x.model()) + all.skip(p as int));
    }
}

}
