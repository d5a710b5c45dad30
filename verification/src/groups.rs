//! Grouping of a stream of items by key. Groups stand in the order in which
//! their keys first appear, and each absorbs the items that carry its key.
use crate::sums;
use std::collections::HashMap;
use vstd::prelude::*;

verus! {

broadcast use vstd::std_specs::hash::group_hash_axioms;

/// A group that is told apart from others by a key.
pub trait Keyed: Sized {
    /// What the group holds, as mathematics.
    type Model;

    /// What tells groups apart, as mathematics.
    type Key;

    /// What this group holds.
    spec fn model(&self) -> Self::Model;

    /// The key of a group.
    spec fn key(m: Self::Model) -> Self::Key;

    /// The hash bucket of a key.
    spec fn bucket(k: Self::Key) -> u64;
}

/// A group that items of type `I` can join.
pub trait Group<I>: Keyed {
    /// What an item says, as mathematics.
    type Item;

    /// What an item says.
    spec fn seen(item: I) -> Self::Item;

    /// The key that an item carries.
    spec fn key_of(item: Self::Item) -> Self::Key;

    /// The group that an item starts.
    spec fn fresh(item: Self::Item) -> Self::Model;

    /// The group after an item joined it.
    spec fn grown(m: Self::Model, item: Self::Item) -> Self::Model;

    /// A group has the key of the item that started it, and keeps it.
    proof fn keeps_key(m: Self::Model, item: Self::Item)
        ensures
            Self::key(Self::fresh(item)) == Self::key_of(item),
            Self::key(m) == Self::key_of(item) ==> Self::key(Self::grown(m, item)) == Self::key(m),
    ;

    /// The hash bucket of an item.
    fn hash(item: &I) -> (r: u64)
        ensures
            r == Self::bucket(Self::key_of(Self::seen(*item))),
    ;

    /// Whether the item carries this group's key.
    fn accepts(&self, item: &I) -> (r: bool)
        ensures
            r == (Self::key(self.model()) == Self::key_of(Self::seen(*item))),
    ;

    /// The group that an item starts.
    fn start(item: &I) -> (r: Self)
        ensures
            r.model() == Self::fresh(Self::seen(*item)),
    ;

    /// Lets an item join.
    fn absorb(&mut self, item: &I)
        ensures
            final(self).model() == Self::grown(old(self).model(), Self::seen(*item)),
    ;
}

/// The position of the group with the given key, looking from `from` on.
pub open spec fn group_at<G: Keyed>(groups: Seq<G::Model>, k: G::Key, from: int) -> Option<int>
    decreases groups.len() - from,
{
    if from < 0 || from >= groups.len() {
        None
    } else if G::key(groups[from]) == k {
        Some(from)
    } else {
        group_at::<G>(groups, k, from + 1)
    }
}

/// The groups after one more item: it joins the group with its key, or starts
/// a new last group.
pub open spec fn with_item<I, G: Group<I>>(groups: Seq<G::Model>, item: G::Item) -> Seq<G::Model> {
    match group_at::<G>(groups, G::key_of(item), 0) {
        Some(p) => groups.update(p, G::grown(groups[p], item)),
        None => groups.push(G::fresh(item)),
    }
}

/// The groups that a sequence of items forms.
pub open spec fn grouped<I, G: Group<I>>(items: Seq<G::Item>) -> Seq<G::Model>
    decreases items.len(),
{
    if items.len() == 0 {
        Seq::empty()
    } else {
        with_item::<I, G>(grouped::<I, G>(items.drop_last()), items.last())
    }
}

/// What the group of a key holds after a sequence of items.
pub open spec fn group_of<I, G: Group<I>>(items: Seq<G::Item>, k: G::Key) -> Option<G::Model>
    decreases items.len(),
{
    if items.len() == 0 {
        None
    } else {
        let before = group_of::<I, G>(items.drop_last(), k);
        if G::key_of(items.last()) == k {
            match before {
                Some(m) => Some(G::grown(m, items.last())),
                None => Some(G::fresh(items.last())),
            }
        } else {
            before
        }
    }
}

/// Whether no two groups have the same key.
pub open spec fn distinct<G: Keyed>(groups: Seq<G::Model>) -> bool {
    forall|i: int, j: int|
        #![trigger groups[i], groups[j]]
        0 <= i < j < groups.len() ==> G::key(groups[i]) != G::key(groups[j])
}

/// The search finds the first group with the key, if there is one.
pub proof fn lemma_group_at<G: Keyed>(groups: Seq<G::Model>, k: G::Key, from: int)
    requires
        0 <= from,
    ensures
        match group_at::<G>(groups, k, from) {
            Some(p) => from <= p < groups.len() && G::key(groups[p]) == k && forall|q: int|
                from <= q < p ==> G::key(#[trigger] groups[q]) != k,
            None => forall|q: int| from <= q < groups.len() ==> G::key(#[trigger] groups[q]) != k,
        },
    decreases groups.len() - from,
{
    if from < groups.len() && G::key(groups[from]) != k {
        lemma_group_at::<G>(groups, k, from + 1);
    }
}

/// Another item keeps the keys apart.
pub proof fn lemma_with_item_distinct<I, G: Group<I>>(groups: Seq<G::Model>, item: G::Item)
    requires
        distinct::<G>(groups),
    ensures
        distinct::<G>(with_item::<I, G>(groups, item)),
{
    lemma_group_at::<G>(groups, G::key_of(item), 0);
    match group_at::<G>(groups, G::key_of(item), 0) {
        Some(p) => G::keeps_key(groups[p], item),
        None => G::keeps_key(G::fresh(item), item),
    }
}

/// Another item changes the group with its key, or starts it, and no other.
pub proof fn lemma_with_item<I, G: Group<I>>(groups: Seq<G::Model>, item: G::Item)
    requires
        distinct::<G>(groups),
    ensures
        distinct::<G>(with_item::<I, G>(groups, item)),
        forall|p: int|
            #![trigger with_item::<I, G>(groups, item)[p]]
            0 <= p < with_item::<I, G>(groups, item).len() ==> {
                let g = with_item::<I, G>(groups, item)[p];
                if G::key(g) == G::key_of(item) {
                    match group_at::<G>(groups, G::key_of(item), 0) {
                        Some(q) => q == p && G::key(groups[q]) == G::key_of(item) && g == G::grown(
                            groups[q],
                            item,
                        ),
                        None => g == G::fresh(item),
                    }
                } else {
                    p < groups.len() && g == groups[p]
                }
            },
        forall|k: G::Key|
            #![trigger group_at::<G>(with_item::<I, G>(groups, item), k, 0)]
            #![trigger group_at::<G>(groups, k, 0)]
            group_at::<G>(with_item::<I, G>(groups, item), k, 0) is Some <==> group_at::<G>(
                groups,
                k,
                0,
            ) is Some || k == G::key_of(item),
{
    let k0 = G::key_of(item);
    let after = with_item::<I, G>(groups, item);
    lemma_with_item_distinct::<I, G>(groups, item);
    lemma_group_at::<G>(groups, k0, 0);
    G::keeps_key(G::fresh(item), item);
    if let Some(q) = group_at::<G>(groups, k0, 0) {
        G::keeps_key(groups[q], item);
    }
    assert forall|p: int| #![trigger after[p]] 0 <= p < after.len() implies {
        let g = after[p];
        if G::key(g) == k0 {
            match group_at::<G>(groups, k0, 0) {
                Some(q) => q == p && G::key(groups[q]) == k0 && g == G::grown(groups[q], item),
                None => g == G::fresh(item),
            }
        } else {
            p < groups.len() && g == groups[p]
        }
    } by {
        if let Some(q) = group_at::<G>(groups, k0, 0) {
            if p < q {
                assert(G::key(groups[p]) != k0);
            } else if p > q {
                assert(G::key(groups[q]) != G::key(groups[p]));
            }
        } else if p < groups.len() {
            assert(G::key(groups[p]) != k0);
        }
    }
    assert forall|k: G::Key|
        #![trigger group_at::<G>(after, k, 0)]
        #![trigger group_at::<G>(groups, k, 0)]
        group_at::<G>(after, k, 0) is Some <==> group_at::<G>(groups, k, 0) is Some || k == k0 by {
        lemma_group_at::<G>(groups, k, 0);
        lemma_group_at::<G>(after, k, 0);
        if let Some(q) = group_at::<G>(groups, k, 0) {
            assert(G::key(after[q]) == k);
        }
        if k == k0 {
            match group_at::<G>(groups, k0, 0) {
                Some(q) => assert(G::key(after[q]) == k0),
                None => assert(G::key(after[groups.len() as int]) == k0),
            }
        }
        if let Some(q) = group_at::<G>(after, k, 0) {
            if k != k0 {
                assert(after[q] == groups[q]);
            }
        }
    }
}

/// Grouping keeps keys apart, gives every key that some item carries a group,
/// and each group holds exactly what the items with its key make of it.
pub proof fn lemma_grouped<I, G: Group<I>>(items: Seq<G::Item>)
    ensures
        distinct::<G>(grouped::<I, G>(items)),
        forall|p: int|
            0 <= p < grouped::<I, G>(items).len() ==> group_of::<I, G>(
                items,
                G::key(#[trigger] grouped::<I, G>(items)[p]),
            ) == Some(grouped::<I, G>(items)[p]),
        forall|k: G::Key|
            (#[trigger] group_of::<I, G>(items, k)) is Some <==> group_at::<G>(
                grouped::<I, G>(items),
                k,
                0,
            ) is Some,
    decreases items.len(),
{
    if items.len() > 0 {
        let rest = items.drop_last();
        let item = items.last();
        let before = grouped::<I, G>(rest);
        let after = grouped::<I, G>(items);
        lemma_grouped::<I, G>(rest);
        lemma_with_item_distinct::<I, G>(before, item);
        let k0 = G::key_of(item);
        lemma_group_at::<G>(before, k0, 0);
        G::keeps_key(G::fresh(item), item);
        match group_at::<G>(before, k0, 0) {
            Some(p) => {
                G::keeps_key(before[p], item);
                assert(group_of::<I, G>(rest, G::key(before[p])) == Some(before[p]));
                assert forall|q: int| 0 <= q < after.len() implies group_of::<I, G>(
                    items,
                    G::key(#[trigger] after[q]),
                ) == Some(after[q]) by {
                    if q != p {
                        assert(after[q] == before[q]);
                        assert(G::key(before[q]) != k0) by {
                            if q < p {
                            } else {
                                assert(G::key(before[p]) != G::key(before[q]));
                            }
                        }
                    }
                }
            },
            None => {
                assert(group_of::<I, G>(rest, k0) is None);
                assert forall|q: int| 0 <= q < after.len() implies group_of::<I, G>(
                    items,
                    G::key(#[trigger] after[q]),
                ) == Some(after[q]) by {
                    if q < before.len() {
                        assert(after[q] == before[q]);
                    }
                }
            },
        }
        assert forall|k: G::Key| (#[trigger] group_of::<I, G>(items, k)) is Some <==> group_at::<G>(
            after,
            k,
            0,
        ) is Some by {
            lemma_group_at::<G>(before, k, 0);
            lemma_group_at::<G>(after, k, 0);
            assert(group_of::<I, G>(rest, k) is Some <==> group_at::<G>(before, k, 0) is Some);
            match group_at::<G>(before, k0, 0) {
                Some(p) => {
                    G::keeps_key(before[p], item);
                    assert(after[p] == G::grown(before[p], item));
                    if let Some(q) = group_at::<G>(before, k, 0) {
                        assert(G::key(after[q]) == k);
                    }
                    if let Some(q) = group_at::<G>(after, k, 0) {
                        assert(G::key(before[q]) == k || k == k0);
                    }
                },
                None => {
                    assert(after[before.len() as int] == G::fresh(item));
                    if let Some(q) = group_at::<G>(before, k, 0) {
                        assert(G::key(after[q]) == k);
                    }
                    if let Some(q) = group_at::<G>(after, k, 0) {
                        if q < before.len() {
                            assert(G::key(before[q]) == k);
                        }
                    }
                },
            }
        }
    }
}

/// Groups under construction.
pub struct Groups<G: Keyed> {
    groups: Vec<G>,
    heads: HashMap<u64, usize>,
    links: Vec<Option<usize>>,
}

/// What the groups hold.
pub open spec fn models<G: Keyed>(s: Seq<G>) -> Seq<G::Model> {
    Seq::new(s.len(), |i: int| s[i].model())
}

impl<G: Keyed> Groups<G> {
    /// What the groups hold, in the order in which their keys first appeared.
    pub closed spec fn view(&self) -> Seq<G::Model> {
        models(self.groups@)
    }

    spec fn bucket_at(self, i: int) -> u64 {
        G::bucket(G::key(self.groups@[i].model()))
    }

    /// The chains of each bucket lead through all groups in it, later ones first.
    pub closed spec fn well_formed(self) -> bool {
        &&& self.links@.len() == self.groups@.len()
        &&& distinct::<G>(self.view())
        &&& forall|i: int|
            0 <= i < self.groups@.len() ==> match #[trigger] self.links@[i] {
                Some(j) => j < i && self.bucket_at(j as int) == self.bucket_at(i) && forall|k: int|
                    j < k < i ==> #[trigger] self.bucket_at(k) != self.bucket_at(i),
                None => forall|k: int| 0 <= k < i ==> #[trigger] self.bucket_at(k) != self.bucket_at(i),
            }
        &&& forall|b: u64|
            match #[trigger] self.head(b) {
                Some(j) => j < self.groups@.len() && self.bucket_at(j as int) == b && forall|k: int|
                    j < k < self.groups@.len() ==> #[trigger] self.bucket_at(k) != b,
                None => forall|k: int| 0 <= k < self.groups@.len() ==> #[trigger] self.bucket_at(k) != b,
            }
    }

    spec fn head(self, b: u64) -> Option<usize> {
        if self.heads@.contains_key(b) {
            Some(self.heads@[b])
        } else {
            None
        }
    }

    /// No groups.
    pub fn new() -> (r: Self)
        ensures
            r.well_formed(),
            r@ == Seq::<G::Model>::empty(),
    {
        let r: Self = Groups { groups: Vec::new(), heads: HashMap::new(), links: Vec::new() };
        assert(r@ =~= Seq::<G::Model>::empty());
        r
    }

    /// The finished groups.
    pub fn finish(self) -> (r: Vec<G>)
        ensures
            models(r@) == self@,
    {
        self.groups
    }

    /// The number of groups.
    pub fn len(&self) -> (r: usize)
        ensures
            r == self@.len(),
    {
        self.groups.len()
    }

    /// Lets an item join the group with its key, or start a new one.
    pub fn add<I>(&mut self, item: &I)
        where G: Group<I>,
        requires
            old(self).well_formed(),
        ensures
            final(self).well_formed(),
            final(self)@ == with_item::<I, G>(old(self)@, G::seen(*item)),
    {
        let ghost before = *self;
        let ghost k0 = G::key_of(G::seen(*item));
        let hash: u64 = G::hash(item);
        let first: Option<usize> = match self.heads.get(&hash) {
            Some(j) => Some(*j),
            None => None,
        };
        assert(first == self.head(hash));
        assert forall|k: int| (match first { Some(j) => j as int, None => -1 }) < k
            < self.groups@.len() implies G::key((#[trigger] self.groups@[k]).model()) != k0 by {
            assert(self.bucket_at(k) != hash);
        }
        let mut current: Option<usize> = first;
        let mut found: Option<usize> = None;
        loop
            invariant_except_break
                found is None,
            invariant
                *self == before,
                self.well_formed(),
                hash == G::bucket(k0),
                k0 == G::key_of(G::seen(*item)),
                match current {
                    Some(j) => j < self.groups@.len() && self.bucket_at(j as int) == hash && forall|
                        k: int,
                    |
                        j < k < self.groups@.len() ==> G::key(
                            (#[trigger] self.groups@[k]).model(),
                        ) != k0,
                    None => forall|k: int|
                        0 <= k < self.groups@.len() ==> G::key(
                            (#[trigger] self.groups@[k]).model(),
                        ) != k0,
                },
            ensures
                match found {
                    Some(p) => p < self.groups@.len() && G::key(self.groups@[p as int].model()) == k0,
                    None => forall|k: int|
                        0 <= k < self.groups@.len() ==> G::key(
                            (#[trigger] self.groups@[k]).model(),
                        ) != k0,
                },
            decreases (match current { Some(j) => j + 1, None => 0 }),
        {
            let i: usize = match current {
                Some(i) => i,
                None => {
                    break;
                },
            };
            if self.groups[i].accepts(item) {
                found = Some(i);
                break;
            }
            proof {
                let next = self.links@[i as int];
                assert forall|k: int| (match next { Some(j) => j as int, None => -1 }) < k
                    < self.groups@.len() implies G::key((#[trigger] self.groups@[k]).model())
                    != k0 by {
                    if k < i {
                        assert(self.bucket_at(k) != self.bucket_at(i as int));
                    }
                }
            }
            current = self.links[i];
        }
        proof {
            lemma_group_at::<G>(before@, k0, 0);
        }
        match found {
            Some(p) => {
                proof {
                    assert(before@[p as int] == before.groups@[p as int].model());
                    G::keeps_key(before@[p as int], G::seen(*item));
                }
                self.groups[p].absorb(item);
                proof {
                    let q = group_at::<G>(before@, k0, 0);
                    assert(q == Some(p as int)) by {
                        if let Some(q) = q {
                            if q < p {
                                assert(G::key(before@[q]) != G::key(before@[p as int]));
                            }
                        }
                    }
                    assert(self@ =~= with_item::<I, G>(before@, G::seen(*item)));
                    lemma_with_item_distinct::<I, G>(before@, G::seen(*item));
                    assert forall|k: int| 0 <= k < self.groups@.len() implies #[trigger] self.bucket_at(
                        k,
                    ) == before.bucket_at(k) by {
                        assert(self@[k] == self.groups@[k].model());
                        assert(before@[k] == before.groups@[k].model());
                    }
                    assert forall|b: u64| #[trigger] self.head(b) == before.head(b) by {
                    }
                }
            },
            None => {
                let fresh = G::start(item);
                let n: usize = self.groups.len();
                self.groups.push(fresh);
                self.links.push(first);
                self.heads.insert(hash, n);
                proof {
                    G::keeps_key(G::fresh(G::seen(*item)), G::seen(*item));
                    assert(group_at::<G>(before@, k0, 0) is None) by {
                        if let Some(q) = group_at::<G>(before@, k0, 0) {
                            assert(before@[q] == before.groups@[q].model());
                        }
                    }
                    assert(self@ =~= with_item::<I, G>(before@, G::seen(*item)));
                    lemma_with_item_distinct::<I, G>(before@, G::seen(*item));
                    assert forall|k: int| 0 <= k < n implies #[trigger] self.bucket_at(k)
                        == before.bucket_at(k) by {
                        assert(self.groups@[k] == before.groups@[k]);
                    }
                    assert(self.bucket_at(n as int) == hash);
                    assert forall|b: u64| (#[trigger] self.head(b)) == (if b == hash { Some(n) } else {
                        before.head(b)
                    }) by {
                    }
                }
            },
        }
    }
}

/// Grouping keeps sums: where a group's quantity grows by that of the item it
/// absorbs, up to a limit, the groups together hold what the items hold.
pub proof fn law_grouping_keeps_sums<I, G: Group<I>>(
    items: Seq<G::Item>,
    of_item: spec_fn(G::Item) -> nat,
    of_group: spec_fn(G::Model) -> nat,
    limit: nat,
)
    requires
        sums::sum_of(items, of_item) <= limit,
        forall|item: G::Item| #[trigger] of_group(G::fresh(item)) == of_item(item),
        forall|m: G::Model, item: G::Item|
            of_group(m) + of_item(item) <= limit ==> #[trigger] of_group(G::grown(m, item))
                == of_group(m) + of_item(item),
    ensures
        sums::sum_of(grouped::<I, G>(items), of_group) == sums::sum_of(items, of_item),
    decreases items.len(),
{
    if items.len() > 0 {
        let rest = items.drop_last();
        let item = items.last();
        law_grouping_keeps_sums::<I, G>(rest, of_item, of_group, limit);
        let before = grouped::<I, G>(rest);
        let after = grouped::<I, G>(items);
        lemma_group_at::<G>(before, G::key_of(item), 0);
        match group_at::<G>(before, G::key_of(item), 0) {
            Some(p) => {
                sums::lemma_sum_with(before, of_group, p, G::grown(before[p], item));
                assert(of_group(G::grown(before[p], item)) == of_group(before[p]) + of_item(item));
            },
            None => {
                assert(after.drop_last() =~= before);
                assert(of_group(G::fresh(item)) == of_item(item));
            },
        }
    }
}

/// A group holds what the items with its key add up to, up to a limit: where a
/// new group's quantity is that of its item, and grows by that of each item
/// that the group absorbs.
pub proof fn lemma_group_sum<I, G: Group<I>>(
    items: Seq<G::Item>,
    k: G::Key,
    of_item: spec_fn(G::Item) -> nat,
    of_group: spec_fn(G::Model) -> nat,
    part: spec_fn(G::Item) -> nat,
    limit: nat,
)
    requires
        forall|item: G::Item| #[trigger]
            part(item) == if G::key_of(item) == k {
                of_item(item)
            } else {
                0
            },
        forall|item: G::Item| #[trigger]
            of_group(G::fresh(item)) == if of_item(item) <= limit {
                of_item(item)
            } else {
                limit
            },
        forall|m: G::Model, item: G::Item| #[trigger]
            of_group(G::grown(m, item)) == if of_group(m) + of_item(item) <= limit {
                of_group(m) + of_item(item)
            } else {
                limit
            },
    ensures
        match group_of::<I, G>(items, k) {
            Some(m) => of_group(m) == if sums::sum_of(items, part) <= limit {
                sums::sum_of(items, part)
            } else {
                limit
            },
            None => sums::sum_of(items, part) == 0,
        },
    decreases items.len(),
{
    if items.len() > 0 {
        let item = items.last();
        lemma_group_sum::<I, G>(items.drop_last(), k, of_item, of_group, part, limit);
        assert(part(item) == if G::key_of(item) == k {
            of_item(item)
        } else {
            0
        });
        assert(of_group(G::fresh(item)) == if of_item(item) <= limit {
            of_item(item)
        } else {
            limit
        });
        if let Some(m) = group_of::<I, G>(items.drop_last(), k) {
            assert(of_group(G::grown(m, item)) == if of_group(m) + of_item(item) <= limit {
                of_group(m) + of_item(item)
            } else {
                limit
            });
        }
    }
}

/// Every item is in a group: there is one with its key.
pub proof fn lemma_item_has_group<I, G: Group<I>>(items: Seq<G::Item>, i: int) -> (p: int)
    requires
        0 <= i < items.len(),
    ensures
        0 <= p < grouped::<I, G>(items).len(),
        G::key(grouped::<I, G>(items)[p]) == G::key_of(items[i]),
{
    let k = G::key_of(items[i]);
    lemma_grouped::<I, G>(items);
    lemma_key_is_kept::<I, G>(items, i);
    lemma_group_at::<G>(grouped::<I, G>(items), k, 0);
    group_at::<G>(grouped::<I, G>(items), k, 0)->0
}

proof fn lemma_key_is_kept<I, G: Group<I>>(items: Seq<G::Item>, i: int)
    requires
        0 <= i < items.len(),
    ensures
        group_of::<I, G>(items, G::key_of(items[i])) is Some,
    decreases items.len(),
{
    if i < items.len() - 1 {
        lemma_key_is_kept::<I, G>(items.drop_last(), i);
    }
}

/// Every group stems from an item with its key.
pub proof fn lemma_group_has_item<I, G: Group<I>>(items: Seq<G::Item>, p: int) -> (i: int)
    requires
        0 <= p < grouped::<I, G>(items).len(),
    ensures
        0 <= i < items.len(),
        G::key_of(items[i]) == G::key(grouped::<I, G>(items)[p]),
{
    lemma_grouped::<I, G>(items);
    lemma_keyed_item::<I, G>(items, G::key(grouped::<I, G>(items)[p]))
}

proof fn lemma_keyed_item<I, G: Group<I>>(items: Seq<G::Item>, k: G::Key) -> (i: int)
    requires
        group_of::<I, G>(items, k) is Some,
    ensures
        0 <= i < items.len(),
        G::key_of(items[i]) == k,
    decreases items.len(),
{
    if G::key_of(items.last()) == k {
        items.len() - 1
    } else {
        lemma_keyed_item::<I, G>(items.drop_last(), k)
    }
}

}
