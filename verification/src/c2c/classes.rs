//! Memory samples sorted into classes, and what the samples of a class have.
use crate::c2c::address;
use crate::c2c::types;
use crate::c2c::types::{C2cSample, C2cStats};
use crate::groups;
use crate::groups::{Group, Groups, Keyed};
use crate::rank;
use crate::sets;
use crate::sets::Ordered;
use vstd::prelude::*;

verus! {

/// The samples that references lead to.
pub open spec fn samples_at(s: Seq<&C2cSample>) -> Seq<C2cSample> {
    Seq::new(s.len(), |i: int| *s[i])
}

/// The samples of each class.
pub open spec fn classes_at(s: Seq<Vec<&C2cSample>>) -> Seq<Seq<C2cSample>> {
    Seq::new(s.len(), |i: int| samples_at(s[i]@))
}

/// What tells samples of one class from those of another.
pub trait Classifier: Sized {
    /// What the samples of a class share, as mathematics.
    type Key;

    /// The key of a sample.
    spec fn key(&self, s: C2cSample) -> Self::Key;

    /// The hash bucket of a key.
    spec fn bucket(k: Self::Key) -> u64;

    /// The hash bucket of a sample.
    fn hash(&self, s: &C2cSample) -> (r: u64)
        ensures
            r == Self::bucket(self.key(*s)),
    ;

    /// Whether two samples have the same key, the second by another classifier.
    fn same(&self, a: &C2cSample, other: &Self, b: &C2cSample) -> (r: bool)
        ensures
            r == (self.key(*a) == other.key(*b)),
    ;
}

/// The samples with a key, in their order.
pub open spec fn class_of<C: Classifier>(c: C, s: Seq<C2cSample>, k: C::Key) -> Seq<C2cSample>
    decreases s.len(),
{
    if s.len() == 0 {
        Seq::empty()
    } else {
        let before = class_of(c, s.drop_last(), k);
        if c.key(s.last()) == k {
            before.push(s.last())
        } else {
            before
        }
    }
}

/// The keys of samples, each once, in the order in which they first appear.
pub open spec fn keys_in<C: Classifier>(c: C, s: Seq<C2cSample>) -> Seq<C::Key>
    decreases s.len(),
{
    if s.len() == 0 {
        Seq::empty()
    } else {
        let before = keys_in(c, s.drop_last());
        let k = c.key(s.last());
        if before.contains(k) {
            before
        } else {
            before.push(k)
        }
    }
}

/// The classes of samples, in the order in which they first appear.
pub open spec fn classes<C: Classifier>(c: C, s: Seq<C2cSample>) -> Seq<Seq<C2cSample>> {
    Seq::new(keys_in(c, s).len(), |i: int| class_of(c, s, keys_in(c, s)[i]))
}

/// Keys stand once each, and a key stands exactly where some sample has it.
pub proof fn lemma_keys<C: Classifier>(c: C, s: Seq<C2cSample>)
    ensures
        forall|i: int, j: int|
            #![trigger keys_in(c, s)[i], keys_in(c, s)[j]]
            0 <= i < j < keys_in(c, s).len() ==> keys_in(c, s)[i] != keys_in(c, s)[j],
        forall|k: C::Key|
            !keys_in(c, s).contains(k) ==> #[trigger] class_of(c, s, k) == Seq::<
                C2cSample,
            >::empty(),
        forall|k: C::Key| #[trigger]
            keys_in(c, s).contains(k) ==> class_of(c, s, k).len() > 0 && c.key(
                class_of(c, s, k)[0],
            ) == k,
    decreases s.len(),
{
    if s.len() > 0 {
        let rest = s.drop_last();
        let x = c.key(s.last());
        let before = keys_in(c, rest);
        let after = keys_in(c, s);
        lemma_keys(c, rest);
        assert forall|k: C::Key| !after.contains(k) implies #[trigger] class_of(c, s, k)
            == Seq::<C2cSample>::empty() by {
            if before.contains(x) {
                assert(before == after);
            } else {
                if before.contains(k) {
                    let i = choose|i: int| 0 <= i < before.len() && before[i] == k;
                    assert(after[i] == k);
                }
                assert(after[before.len() as int] == x);
            }
            assert(!before.contains(k));
            assert(k != x);
            assert(class_of(c, rest, k) == Seq::<C2cSample>::empty());
        }
        assert forall|k: C::Key| #[trigger] after.contains(k) implies class_of(c, s, k).len() > 0
            && c.key(class_of(c, s, k)[0]) == k by {
            let i = choose|i: int| 0 <= i < after.len() && after[i] == k;
            if i < before.len() {
                assert(before[i] == k);
                assert(before.contains(k));
            } else {
                assert(k == x);
                assert(!before.contains(k));
                assert(class_of(c, rest, k) == Seq::<C2cSample>::empty());
            }
        }
        assert forall|i: int, j: int|
            #![trigger after[i], after[j]]
            0 <= i < j < after.len() implies after[i] != after[j] by {
            if j < before.len() {
                assert(before[i] != before[j]);
            } else {
                assert(before.contains(before[i]));
            }
        }
    }
}

/// Every class has a sample, and all classes have different keys.
pub proof fn lemma_classes<C: Classifier>(c: C, s: Seq<C2cSample>)
    ensures
        forall|i: int| 0 <= i < classes(c, s).len() ==> (#[trigger] classes(c, s)[i]).len() > 0,
        forall|i: int|
            0 <= i < classes(c, s).len() ==> c.key((#[trigger] classes(c, s)[i])[0]) == keys_in(
                c,
                s,
            )[i],
{
    lemma_keys(c, s);
    assert forall|i: int| 0 <= i < classes(c, s).len() implies (#[trigger] classes(c, s)[i]).len()
        > 0 && c.key(classes(c, s)[i][0]) == keys_in(c, s)[i] by {
        assert(keys_in(c, s).contains(keys_in(c, s)[i]));
    }
}

/// A sample on its way into a class.
struct Tagged<'a, C> {
    classifier: &'a C,
    sample: &'a C2cSample,
}

/// A class under construction.
struct Class<'a, C> {
    classifier: &'a C,
    first: &'a C2cSample,
    members: Vec<&'a C2cSample>,
}

impl<'a, C: Classifier> Keyed for Class<'a, C> {
    type Model = (C::Key, Seq<C2cSample>);

    type Key = C::Key;

    closed spec fn model(&self) -> (C::Key, Seq<C2cSample>) {
        (self.classifier.key(*self.first), samples_at(self.members@))
    }

    open spec fn key(m: (C::Key, Seq<C2cSample>)) -> C::Key {
        m.0
    }

    open spec fn bucket(k: C::Key) -> u64 {
        C::bucket(k)
    }
}

impl<'a, C: Classifier> Group<Tagged<'a, C>> for Class<'a, C> {
    type Item = (C::Key, C2cSample);

    closed spec fn seen(item: Tagged<'a, C>) -> (C::Key, C2cSample) {
        (item.classifier.key(*item.sample), *item.sample)
    }

    open spec fn key_of(item: (C::Key, C2cSample)) -> C::Key {
        item.0
    }

    open spec fn fresh(item: (C::Key, C2cSample)) -> (C::Key, Seq<C2cSample>) {
        (item.0, seq![item.1])
    }

    open spec fn grown(m: (C::Key, Seq<C2cSample>), item: (C::Key, C2cSample)) -> (
        C::Key,
        Seq<C2cSample>,
    ) {
        (m.0, m.1.push(item.1))
    }

    proof fn keeps_key(m: (C::Key, Seq<C2cSample>), item: (C::Key, C2cSample)) {
    }

    fn hash(item: &Tagged<'a, C>) -> (r: u64) {
        item.classifier.hash(item.sample)
    }

    fn accepts(&self, item: &Tagged<'a, C>) -> (r: bool) {
        self.classifier.same(self.first, item.classifier, item.sample)
    }

    fn start(item: &Tagged<'a, C>) -> (r: Self) {
        let mut members: Vec<&'a C2cSample> = Vec::new();
        members.push(item.sample);
        assert(samples_at(members@) =~= seq![*item.sample]);
        Class { classifier: item.classifier, first: item.sample, members }
    }

    fn absorb(&mut self, item: &Tagged<'a, C>) {
        let ghost before = self.members@;
        self.members.push(item.sample);
        assert(samples_at(self.members@) =~= samples_at(before).push(*item.sample));
    }
}


/// What the classes hold, with their keys.
spec fn keyed_classes<C: Classifier>(c: C, s: Seq<C2cSample>) -> Seq<(C::Key, Seq<C2cSample>)> {
    Seq::new(keys_in(c, s).len(), |i: int| (keys_in(c, s)[i], class_of(c, s, keys_in(c, s)[i])))
}

/// One more sample joins the class with its key, or starts one.
proof fn lemma_classes_grow<'a, C: Classifier + 'a>(c: C, s: Seq<C2cSample>)
    requires
        s.len() > 0,
    ensures
        keyed_classes(c, s) == groups::with_item::<Tagged<'a, C>, Class<'a, C>>(
            keyed_classes(c, s.drop_last()),
            (c.key(s.last()), s.last()),
        ),
{
    let rest = s.drop_last();
    let x = c.key(s.last());
    let before = keyed_classes(c, rest);
    let item = (x, s.last());
    let after = groups::with_item::<Tagged<'a, C>, Class<'a, C>>(before, item);
    lemma_keys(c, rest);
    groups::lemma_group_at::<Class<'a, C>>(before, x, 0);
    match groups::group_at::<Class<'a, C>>(before, x, 0) {
        Some(p) => {
            assert(before[p].0 == x);
            assert(keys_in(c, rest)[p] == x);
            assert(keys_in(c, rest).contains(x));
            assert forall|i: int| 0 <= i < before.len() implies #[trigger] keyed_classes(c, s)[i]
                == after[i] by {
                if i != p {
                    let a = if i < p { i } else { p };
                    let b = if i < p { p } else { i };
                    assert(keys_in(c, rest)[a] != keys_in(c, rest)[b]);
                }
            }
            assert(keyed_classes(c, s) =~= after);
        },
        None => {
            assert(!keys_in(c, rest).contains(x)) by {
                if keys_in(c, rest).contains(x) {
                    let i = choose|i: int|
                        0 <= i < keys_in(c, rest).len() && keys_in(c, rest)[i] == x;
                    assert(<Class<'a, C> as Keyed>::key(before[i]) == x);
                }
            }
            assert(class_of(c, rest, x) == Seq::<C2cSample>::empty());
            assert forall|i: int| 0 <= i < before.len() implies #[trigger] keyed_classes(c, s)[i]
                == after[i] by {
                assert(keys_in(c, rest).contains(keys_in(c, rest)[i]));
            }
            assert(class_of(c, s, x) =~= seq![s.last()]);
            assert(keyed_classes(c, s) =~= after);
        },
    }
}

/// Sorts samples into classes.
pub fn classify<'a, C: Classifier>(c: &'a C, samples: &Vec<&'a C2cSample>) -> (r: Vec<
    Vec<&'a C2cSample>,
>)
    ensures
        classes_at(r@) == classes(*c, samples_at(samples@)),
        forall|i: int| 0 <= i < r@.len() ==> (#[trigger] r@[i])@.len() > 0,
        forall|i: int, j: int|
            0 <= i < r@.len() && 0 <= j < r@[i]@.len() ==> samples@.contains(
                #[trigger] r@[i]@[j],
            ),
{
    let ghost all = samples_at(samples@);
    let mut sorted: Groups<Class<'a, C>> = Groups::new();
    let mut i: usize = 0;
    assert(keyed_classes(*c, all.take(0)) =~= Seq::<(C::Key, Seq<C2cSample>)>::empty());
    while i < samples.len()
        invariant
            i <= samples@.len(),
            all == samples_at(samples@),
            sorted.well_formed(),
            sorted@ == keyed_classes(*c, all.take(i as int)),
        decreases samples@.len() - i,
    {
        proof {
            lemma_classes_grow(*c, all.take(i + 1));
            assert(all.take(i + 1).drop_last() =~= all.take(i as int));
            assert(all.take(i + 1).last() == *samples@[i as int]);
        }
        let item = Tagged { classifier: c, sample: samples[i] };
        sorted.add(&item);
        i += 1;
    }
    assert(all.take(all.len() as int) =~= all);
    let finished: Vec<Class<'a, C>> = sorted.finish();
    let ghost done = finished@;
    let mut result: Vec<Vec<&'a C2cSample>> = Vec::new();
    proof {
        lemma_classes(*c, all);
        assert forall|k: int| 0 <= k < done.len() implies samples_at((#[trigger] done[k]).members@)
            == classes(*c, all)[k] by {
            assert(groups::models(done)[k] == done[k].model());
        }
    }
    for class in it: finished
        invariant
            it.seq() == done,
            result@.len() == it.index(),
            forall|k: int| 0 <= k < result@.len() ==> #[trigger] result@[k] == done[k].members,
    {
        result.push(class.members);
    }
    assert(classes_at(result@) =~= classes(*c, all));
    proof {
        assert forall|i: int, j: int|
            0 <= i < result@.len() && 0 <= j < result@[i]@.len() implies samples@.contains(
            #[trigger] result@[i]@[j],
        ) by {
            assert(classes_at(result@)[i] == samples_at(result@[i]@));
            assert(samples_at(result@[i]@)[j] == *result@[i]@[j]);
            lemma_class_member(*c, all, keys_in(*c, all)[i], j);
            let k = choose|k: int| 0 <= k < all.len() && all[k] == *result@[i]@[j];
            assert(samples@[k] == result@[i]@[j]);
        }
    }
    result
}

proof fn lemma_class_member<C: Classifier>(c: C, s: Seq<C2cSample>, k: C::Key, j: int)
    requires
        0 <= j < class_of(c, s, k).len(),
    ensures
        s.contains(class_of(c, s, k)[j]),
        c.key(class_of(c, s, k)[j]) == k,
    decreases s.len(),
{
    if s.len() > 0 {
        if j < class_of(c, s.drop_last(), k).len() {
            lemma_class_member(c, s.drop_last(), k, j);
            let x = class_of(c, s, k)[j];
            let p = choose|p: int| 0 <= p < s.drop_last().len() && s.drop_last()[p] == x;
            assert(s[p] == x);
        } else {
            assert(s[s.len() - 1] == class_of(c, s, k)[j]);
        }
    }
}

/// The counts over samples.
pub fn tally(members: &Vec<&C2cSample>) -> (r: C2cStats)
    ensures
        r == types::stats_of(samples_at(members@)),
{
    let ghost all = samples_at(members@);
    let mut stats = C2cStats::default();
    let mut i: usize = 0;
    while i < members.len()
        invariant
            i <= members@.len(),
            all == samples_at(members@),
            stats == types::stats_of(all.take(i as int)),
        decreases members@.len() - i,
    {
        proof {
            assert(all.take(i + 1).drop_last() =~= all.take(i as int));
            assert(all.take(i + 1).last() == *members@[i as int]);
        }
        stats.add_sample(members[i]);
        i += 1;
    }
    assert(all.take(all.len() as int) =~= all);
    stats
}

/// Something that a sample may have.
pub trait Feature: Sized {
    /// The type of what it has.
    type Value: Ordered;

    /// What a sample has.
    spec fn of(&self, s: C2cSample) -> Option<<Self::Value as Ordered>::Model>;

    /// What a sample has.
    fn get(&self, s: &C2cSample) -> (r: Option<Self::Value>)
        ensures
            match r {
                Some(v) => self.of(*s) == Some(v.model()),
                None => self.of(*s) is None,
            },
    ;
}

/// What samples have, each once, in rising order.
pub open spec fn gathered<F: Feature>(f: F, s: Seq<C2cSample>) -> Seq<
    <F::Value as Ordered>::Model,
>
    decreases s.len(),
{
    if s.len() == 0 {
        Seq::empty()
    } else {
        let before = gathered(f, s.drop_last());
        match f.of(s.last()) {
            Some(v) => sets::inserted::<F::Value>(before, v),
            None => before,
        }
    }
}

/// What samples have, each once, in rising order.
pub fn gather<F: Feature>(f: &F, members: &Vec<&C2cSample>) -> (r: Vec<F::Value>)
    ensures
        sets::models(r@) == gathered(*f, samples_at(members@)),
{
    let ghost all = samples_at(members@);
    let mut r: Vec<F::Value> = Vec::new();
    let mut i: usize = 0;
    assert(sets::models(r@) =~= gathered(*f, all.take(0)));
    while i < members.len()
        invariant
            i <= members@.len(),
            all == samples_at(members@),
            sets::models(r@) == gathered(*f, all.take(i as int)),
        decreases members@.len() - i,
    {
        proof {
            assert(all.take(i + 1).drop_last() =~= all.take(i as int));
            assert(all.take(i + 1).last() == *members@[i as int]);
        }
        match f.get(members[i]) {
            Some(v) => {
                sets::insert(&mut r, v);
            },
            None => {},
        }
        i += 1;
    }
    assert(all.take(all.len() as int) =~= all);
    r
}

/// A gathered list rises and holds exactly what some sample has.
pub proof fn law_gathered_once_each<F: Feature>(f: F, s: Seq<C2cSample>)
    ensures
        sets::rising::<F::Value>(gathered(f, s)),
        forall|v: <F::Value as Ordered>::Model| #[trigger]
            gathered(f, s).contains(v) <==> exists|i: int|
                0 <= i < s.len() && f.of(#[trigger] s[i]) == Some(v),
    decreases s.len(),
{
    if s.len() > 0 {
        let rest = s.drop_last();
        law_gathered_once_each(f, rest);
        if let Some(x) = f.of(s.last()) {
            sets::lemma_inserted::<F::Value>(gathered(f, rest), x);
        }
        assert forall|v: <F::Value as Ordered>::Model| #[trigger]
            gathered(f, s).contains(v) <==> exists|i: int|
                0 <= i < s.len() && f.of(#[trigger] s[i]) == Some(v) by {
            if exists|i: int| 0 <= i < s.len() && f.of(#[trigger] s[i]) == Some(v) {
                let i = choose|i: int| 0 <= i < s.len() && f.of(#[trigger] s[i]) == Some(v);
                if i < rest.len() {
                    assert(f.of(rest[i]) == Some(v));
                    assert(gathered(f, rest).contains(v));
                }
            }
            if gathered(f, rest).contains(v) {
                let i = choose|i: int| 0 <= i < rest.len() && f.of(#[trigger] rest[i]) == Some(v);
                assert(f.of(s[i]) == Some(v));
            }
            if f.of(s.last()) == Some(v) {
                assert(f.of(s[s.len() - 1]) == Some(v));
            }
        }
    }
}

/// The CPU.
pub struct Cpu;

/// The process.
pub struct Pid;

/// The thread.
pub struct Tid;

/// The name of the thread.
pub struct ThreadName;

/// The address of the instruction.
pub struct InstructionAddress;

/// The cache line in physical memory.
pub struct PhysicalLine {
    pub size: u64,
}

/// The cache line in the process' memory.
pub struct VirtualLine {
    pub size: u64,
}

impl Feature for Cpu {
    type Value = u32;

    open spec fn of(&self, s: C2cSample) -> Option<u32> {
        Some(s.cpu)
    }

    fn get(&self, s: &C2cSample) -> (r: Option<u32>) {
        Some(s.cpu)
    }
}

impl Feature for Pid {
    type Value = i32;

    open spec fn of(&self, s: C2cSample) -> Option<i32> {
        Some(s.pid)
    }

    fn get(&self, s: &C2cSample) -> (r: Option<i32>) {
        Some(s.pid)
    }
}

impl Feature for Tid {
    type Value = i32;

    open spec fn of(&self, s: C2cSample) -> Option<i32> {
        Some(s.tid)
    }

    fn get(&self, s: &C2cSample) -> (r: Option<i32>) {
        Some(s.tid)
    }
}

impl Feature for ThreadName {
    type Value = String;

    open spec fn of(&self, s: C2cSample) -> Option<Seq<char>> {
        Some(s.thread_name@)
    }

    fn get(&self, s: &C2cSample) -> (r: Option<String>) {
        let name: &String = &s.thread_name;
        Some(name.clone())
    }
}

impl Feature for InstructionAddress {
    type Value = u64;

    open spec fn of(&self, s: C2cSample) -> Option<u64> {
        Some(s.instruction_address)
    }

    fn get(&self, s: &C2cSample) -> (r: Option<u64>) {
        Some(s.instruction_address)
    }
}

impl Feature for PhysicalLine {
    type Value = u64;

    open spec fn of(&self, s: C2cSample) -> Option<u64> {
        match s.physical_address {
            Some(a) => Some(address::aligned(a, self.size)),
            None => None,
        }
    }

    fn get(&self, s: &C2cSample) -> (r: Option<u64>) {
        match s.physical_address {
            Some(a) => Some(address::line_of(a, self.size)),
            None => None,
        }
    }
}

impl Feature for VirtualLine {
    type Value = (i32, u64);

    open spec fn of(&self, s: C2cSample) -> Option<(i32, u64)> {
        Some((s.pid, address::aligned(s.data_address, self.size)))
    }

    fn get(&self, s: &C2cSample) -> (r: Option<(i32, u64)>) {
        let line: (i32, u64) = (s.pid, address::line_of(s.data_address, self.size));
        assert(line.model() == (s.pid, address::aligned(s.data_address, self.size)));
        Some(line)
    }
}

/// An order of classes.
pub trait ClassOrder: Sized {
    /// What a class is ordered by.
    spec fn key(&self, class: Seq<C2cSample>) -> Seq<i128>;

    /// What a class is ordered by.
    fn key_of(&self, class: &Vec<&C2cSample>) -> (r: Vec<i128>)
        requires
            class@.len() > 0,
        ensures
            r@ == self.key(samples_at(class@)),
    ;
}

/// Classes in an order.
pub open spec fn ordered<O: ClassOrder>(o: O, classes: Seq<Seq<C2cSample>>) -> Seq<
    Seq<C2cSample>,
> {
    rank::ranked(classes, |class: Seq<C2cSample>| o.key(class))
}

/// Puts classes in an order.
pub fn order_classes<'a, O: ClassOrder>(o: &O, classes: Vec<Vec<&'a C2cSample>>) -> (r: Vec<
    Vec<&'a C2cSample>,
>)
    requires
        forall|i: int| 0 <= i < classes@.len() ==> (#[trigger] classes@[i])@.len() > 0,
    ensures
        classes_at(r@) == ordered(*o, classes_at(classes@)),
        r@.len() == classes@.len(),
        forall|i: int| 0 <= i < r@.len() ==> (#[trigger] r@[i])@.len() > 0,
        forall|i: int| 0 <= i < r@.len() ==> classes@.contains(#[trigger] r@[i]),
{
    let ghost all = classes@;
    let ghost rows = classes_at(all);
    let ghost by_key = |class: Seq<C2cSample>| o.key(class);
    let mut keys: Vec<Vec<i128>> = Vec::new();
    let mut i: usize = 0;
    while i < classes.len()
        invariant
            i <= classes@.len(),
            all == classes@,
            rows == classes_at(all),
            keys@.len() == i,
            by_key == (|class: Seq<C2cSample>| o.key(class)),
            forall|k: int| 0 <= k < classes@.len() ==> (#[trigger] classes@[k])@.len() > 0,
            forall|k: int| 0 <= k < i ==> #[trigger] keys@[k]@ == by_key(rows[k]),
        decreases classes@.len() - i,
    {
        assert(classes@[i as int]@.len() > 0);
        let key = o.key_of(&classes[i]);
        keys.push(key);
        i += 1;
    }
    let ghost ks = rank::key_views(keys@);
    let sorted = rank::arrange(classes, &keys);
    proof {
        assert(ks =~= rank::keys_of(rows, by_key));
        let f = |class: Vec<&'a C2cSample>| samples_at(class@);
        rank::lemma_arranged_map(all, ks, f);
        assert(rows =~= Seq::new(all.len(), |p: int| f(all[p])));
        rank::lemma_ranking_len(ks, rank::ranking(ks));
        assert(classes_at(sorted@) =~= Seq::new(
            all.len(),
            |p: int| f(rank::arranged(all, ks)[p]),
        ));
        assert forall|p: int| 0 <= p < sorted@.len() implies (#[trigger] sorted@[p])@.len() > 0 by {
            assert(sorted@[p] == all[rank::ranking(ks)[p]]);
        }
        assert forall|p: int| 0 <= p < sorted@.len() implies all.contains(#[trigger] sorted@[p]) by {
            assert(sorted@[p] == all[rank::ranking(ks)[p]]);
        }
    }
    sorted
}


/// A property of samples.
pub trait Condition: Sized {
    /// Whether a sample has the property.
    spec fn holds(&self, s: C2cSample) -> bool;

    /// Whether a sample has the property.
    fn test(&self, s: &C2cSample) -> (r: bool)
        ensures
            r == self.holds(*s),
    ;
}

/// The samples with a property.
pub open spec fn chosen<P: Condition>(p: P, s: Seq<C2cSample>) -> Seq<C2cSample>
    decreases s.len(),
{
    if s.len() == 0 {
        Seq::empty()
    } else {
        let before = chosen(p, s.drop_last());
        if p.holds(s.last()) {
            before.push(s.last())
        } else {
            before
        }
    }
}

/// The samples with a property.
pub fn pick<'a, P: Condition>(p: &P, members: &Vec<&'a C2cSample>) -> (r: Vec<&'a C2cSample>)
    ensures
        samples_at(r@) == chosen(*p, samples_at(members@)),
        forall|i: int| 0 <= i < r@.len() ==> p.holds(*#[trigger] r@[i]),
{
    let ghost all = samples_at(members@);
    let mut r: Vec<&'a C2cSample> = Vec::new();
    let mut i: usize = 0;
    assert(samples_at(r@) =~= chosen(*p, all.take(0)));
    while i < members.len()
        invariant
            i <= members@.len(),
            all == samples_at(members@),
            samples_at(r@) == chosen(*p, all.take(i as int)),
            forall|k: int| 0 <= k < r@.len() ==> p.holds(*#[trigger] r@[k]),
        decreases members@.len() - i,
    {
        let ghost before = r@;
        proof {
            assert(all.take(i + 1).drop_last() =~= all.take(i as int));
            assert(all.take(i + 1).last() == *members@[i as int]);
        }
        if p.test(members[i]) {
            r.push(members[i]);
            assert(samples_at(r@) =~= samples_at(before).push(*members@[i as int]));
        }
        i += 1;
    }
    assert(all.take(all.len() as int) =~= all);
    r
}

/// References to all samples.
pub fn refer<'a>(samples: &'a Vec<C2cSample>) -> (r: Vec<&'a C2cSample>)
    ensures
        samples_at(r@) == samples@,
{
    let mut r: Vec<&'a C2cSample> = Vec::new();
    let mut i: usize = 0;
    while i < samples.len()
        invariant
            i <= samples@.len(),
            samples_at(r@) == samples@.take(i as int),
        decreases samples@.len() - i,
    {
        let ghost before = r@;
        r.push(&samples[i]);
        assert(samples_at(r@) =~= samples_at(before).push(samples@[i as int]));
        assert(samples@.take(i + 1) =~= samples@.take(i as int).push(samples@[i as int]));
        i += 1;
    }
    assert(samples@.take(samples@.len() as int) =~= samples@);
    r
}

/// The samples of all classes together.
pub open spec fn total_len(classes: Seq<Seq<C2cSample>>) -> nat
    decreases classes.len(),
{
    if classes.len() == 0 {
        0
    } else {
        total_len(classes.drop_last()) + classes.last().len()
    }
}

proof fn lemma_total_update(classes: Seq<Seq<C2cSample>>, p: int, x: C2cSample)
    requires
        0 <= p < classes.len(),
    ensures
        total_len(classes.update(p, classes[p].push(x))) == total_len(classes) + 1,
    decreases classes.len(),
{
    let after = classes.update(p, classes[p].push(x));
    if p == classes.len() - 1 {
        assert(after.drop_last() =~= classes.drop_last());
    } else {
        lemma_total_update(classes.drop_last(), p, x);
        assert(after.drop_last() =~= classes.drop_last().update(p, classes[p].push(x)));
    }
}

/// Every sample falls into exactly one class: the classes together have as
/// many samples as there are, and all samples of a class have its key.
pub proof fn law_classes_cover<C: Classifier>(c: C, s: Seq<C2cSample>)
    ensures
        total_len(classes(c, s)) == s.len(),
        forall|i: int, j: int|
            0 <= i < classes(c, s).len() && 0 <= j < classes(c, s)[i].len() ==> c.key(
                #[trigger] classes(c, s)[i][j],
            ) == keys_in(c, s)[i],
    decreases s.len(),
{
    assert forall|i: int, j: int|
        0 <= i < classes(c, s).len() && 0 <= j < classes(c, s)[i].len() implies c.key(
        #[trigger] classes(c, s)[i][j],
    ) == keys_in(c, s)[i] by {
        lemma_class_member(c, s, keys_in(c, s)[i], j);
    }
    if s.len() > 0 {
        let rest = s.drop_last();
        let x = c.key(s.last());
        law_classes_cover(c, rest);
        lemma_keys(c, rest);
        let before = classes(c, rest);
        if keys_in(c, rest).contains(x) {
            let p = choose|p: int| 0 <= p < keys_in(c, rest).len() && keys_in(c, rest)[p] == x;
            lemma_total_update(before, p, s.last());
            assert(classes(c, s) =~= before.update(p, before[p].push(s.last()))) by {
                assert forall|i: int| 0 <= i < before.len() implies #[trigger] classes(c, s)[i]
                    == before.update(p, before[p].push(s.last()))[i] by {
                    if i != p {
                        let a = if i < p { i } else { p };
                        let b = if i < p { p } else { i };
                        assert(keys_in(c, rest)[a] != keys_in(c, rest)[b]);
                    }
                }
            }
        } else {
            assert(class_of(c, rest, x) == Seq::<C2cSample>::empty());
            assert(class_of(c, s, x) =~= seq![s.last()]);
            assert(classes(c, s).drop_last() =~= before) by {
                assert forall|i: int| 0 <= i < before.len() implies #[trigger] classes(c, s)[i]
                    == before[i] by {
                    assert(keys_in(c, rest).contains(keys_in(c, rest)[i]));
                }
            }
        }
    }
}

}
