//! Call trees: where time goes, by path from the root of the stack.
use crate::analysis::samples;
use crate::analysis::samples::AnalysisRange;
use crate::analysis::symbols;
use crate::filters::FrameNameFilter;
use crate::profile::resolved::{ResolvedSample, ResolvedStack, ResolvedThread};
use crate::rank;
use crate::text;
use crate::units;
use crate::units::Ratio;
use vstd::prelude::*;

verus! {

/// A node of a call tree.
#[derive(Debug)]
pub struct CallTreeNode {
    pub function_name: String,
    pub self_time_ms: u64,
    pub total_time_ms: u64,
    pub total_percent: Ratio,
    pub thread_percent: Ratio,
    pub children: Vec<CallTreeNode>,
}

/// Whether two trees say the same in every node.
pub open spec fn same_tree(a: CallTreeNode, b: CallTreeNode) -> bool
    decreases a,
{
    &&& a.function_name@ == b.function_name@
    &&& a.self_time_ms == b.self_time_ms
    &&& a.total_time_ms == b.total_time_ms
    &&& a.total_percent == b.total_percent
    &&& a.thread_percent == b.thread_percent
    &&& a.children@.len() == b.children@.len()
    &&& forall|i: int|
        0 <= i < a.children@.len() ==> same_tree(#[trigger] a.children@[i], b.children@[i])
}

impl Clone for CallTreeNode {
    fn clone(&self) -> (r: Self)
        ensures
            same_tree(*self, r),
        decreases self,
    {
        let mut children: Vec<CallTreeNode> = Vec::new();
        let mut i: usize = 0;
        while i < self.children.len()
            invariant
                i <= self.children@.len(),
                children@.len() == i,
                forall|k: int| 0 <= k < i ==> same_tree(#[trigger] self.children@[k], children@[k]),
            decreases self.children@.len() - i,
        {
            let child = &self.children[i];
            assert(decreases_to!(*self => self.children@[i as int]));
            children.push(child.clone());
            i += 1;
        }
        CallTreeNode {
            function_name: self.function_name.clone(),
            self_time_ms: self.self_time_ms,
            total_time_ms: self.total_time_ms,
            total_percent: self.total_percent,
            thread_percent: self.thread_percent,
            children,
        }
    }
}

/// A call tree below one function.
#[derive(Debug, Clone)]
pub struct FocusedCallTree {
    pub tree: CallTreeNode,
    pub sample_count: usize,
    pub total_samples: usize,
    pub focused_time_ms: u64,
    pub focused_percent: Ratio,
}

/// How a caller must stand above a function.
#[derive(Debug, Clone, Copy, PartialEq, Eq, Structural)]
pub enum CallerRelationship {
    Ancestor,
    Immediate,
}

/// The time of one sample and the path that it is charged to.
#[verifier::ext_equal]
pub struct Visit {
    pub path: Seq<Seq<char>>,
    pub time: u64,
}

/// The time of all visits that go through a path.
pub open spec fn total_at(visits: Seq<Visit>, p: Seq<Seq<char>>) -> nat
    decreases visits.len(),
{
    if visits.len() == 0 {
        0
    } else {
        total_at(visits.drop_last(), p) + if p.is_prefix_of(visits.last().path) {
            visits.last().time as nat
        } else {
            0nat
        }
    }
}

/// The time of all visits that end at a path.
pub open spec fn self_at(visits: Seq<Visit>, p: Seq<Seq<char>>) -> nat
    decreases visits.len(),
{
    if visits.len() == 0 {
        0
    } else {
        self_at(visits.drop_last(), p) + if visits.last().path == p {
            visits.last().time as nat
        } else {
            0nat
        }
    }
}

/// Whether some visit goes through a path.
pub open spec fn visited(visits: Seq<Visit>, p: Seq<Seq<char>>) -> bool {
    exists|i: int| 0 <= i < visits.len() && p.is_prefix_of(#[trigger] visits[i].path)
}

/// The time of all visits.
pub open spec fn visit_time(visits: Seq<Visit>) -> nat
    decreases visits.len(),
{
    if visits.len() == 0 {
        0
    } else {
        visit_time(visits.drop_last()) + visits.last().time as nat
    }
}

/// Whether a list of children holds one with a name.
pub open spec fn has_child(children: Seq<CallTreeNode>, name: Seq<char>) -> bool {
    exists|i: int| 0 <= i < children.len() && #[trigger] children[i].function_name@ == name
}

/// Whether a node, and all below it, show the visits from a path on. A child
/// is shown when visits go through it and its share reaches the limit;
/// children stand in the order of falling total time.
pub open spec fn shows(
    node: CallTreeNode,
    p: Seq<Seq<char>>,
    visits: Seq<Visit>,
    whole: u64,
    thread_whole: u64,
    limit: int,
) -> bool
    decreases node,
{
    &&& node.total_time_ms == units::capped(total_at(visits, p) as int)
    &&& node.self_time_ms == units::capped(self_at(visits, p) as int)
    &&& node.total_percent == (Ratio { part: node.total_time_ms, whole })
    &&& node.thread_percent == (Ratio { part: node.total_time_ms, whole: thread_whole })
    &&& forall|i: int, j: int|
        #![trigger node.children@[i], node.children@[j]]
        0 <= i < j < node.children@.len() ==> node.children@[i].function_name@
            != node.children@[j].function_name@ && node.children@[i].total_time_ms
            >= node.children@[j].total_time_ms
    &&& forall|i: int|
        0 <= i < node.children@.len() ==> shows(
            #[trigger] node.children@[i],
            p.push(node.children@[i].function_name@),
            visits,
            whole,
            thread_whole,
            limit,
        )
    &&& forall|c: Seq<char>|
        #[trigger] has_child(node.children@, c) <==> visited(visits, p.push(c)) && (Ratio {
            part: units::capped(total_at(visits, p.push(c)) as int),
            whole,
        }).reaches(limit)
}

struct TreeBuilder {
    name: String,
    self_time: u64,
    total_time: u64,
    children: Vec<TreeBuilder>,
}

spec fn has_builder(children: Seq<TreeBuilder>, name: Seq<char>) -> bool {
    exists|i: int| 0 <= i < children.len() && #[trigger] children[i].name@ == name
}

spec fn records(b: TreeBuilder, p: Seq<Seq<char>>, visits: Seq<Visit>) -> bool
    decreases b,
{
    &&& b.total_time == units::capped(total_at(visits, p) as int)
    &&& b.self_time == units::capped(self_at(visits, p) as int)
    &&& forall|i: int, j: int|
        #![trigger b.children@[i], b.children@[j]]
        0 <= i < j < b.children@.len() ==> b.children@[i].name@ != b.children@[j].name@
    &&& forall|i: int|
        0 <= i < b.children@.len() ==> records(
            #[trigger] b.children@[i],
            p.push(b.children@[i].name@),
            visits,
        )
    &&& forall|c: Seq<char>| #[trigger] has_builder(b.children@, c) <==> visited(visits, p.push(c))
}

proof fn lemma_unvisited(visits: Seq<Visit>, p: Seq<Seq<char>>)
    requires
        !visited(visits, p),
    ensures
        total_at(visits, p) == 0,
        self_at(visits, p) == 0,
        forall|c: Seq<char>| !visited(visits, #[trigger] p.push(c)),
    decreases visits.len(),
{
    if visits.len() > 0 {
        let rest = visits.drop_last();
        assert(!visited(rest, p)) by {
            if visited(rest, p) {
                let i = choose|i: int|
                    0 <= i < rest.len() && p.is_prefix_of(#[trigger] rest[i].path);
                assert(visits[i].path == rest[i].path);
            }
        }
        lemma_unvisited(rest, p);
        assert(!p.is_prefix_of(visits[visits.len() - 1].path));
        assert(p.is_prefix_of(p));
    }
    assert forall|c: Seq<char>| !visited(visits, #[trigger] p.push(c)) by {
        if visited(visits, p.push(c)) {
            let i = choose|i: int|
                0 <= i < visits.len() && p.push(c).is_prefix_of(#[trigger] visits[i].path);
            assert(p.is_prefix_of(visits[i].path)) by {
                assert(p.push(c).take(p.len() as int) =~= p);
            }
        }
    }
}

proof fn lemma_visited_push(visits: Seq<Visit>, v: Visit, p: Seq<Seq<char>>)
    ensures
        visited(visits.push(v), p) <==> visited(visits, p) || p.is_prefix_of(v.path),
        total_at(visits.push(v), p) == total_at(visits, p) + if p.is_prefix_of(v.path) {
            v.time as nat
        } else {
            0nat
        },
        self_at(visits.push(v), p) == self_at(visits, p) + if v.path == p {
            v.time as nat
        } else {
            0nat
        },
{
    let all = visits.push(v);
    assert(all.drop_last() =~= visits);
    if visited(visits, p) {
        let i = choose|i: int| 0 <= i < visits.len() && p.is_prefix_of(#[trigger] visits[i].path);
        assert(all[i].path == visits[i].path);
    }
    if p.is_prefix_of(v.path) {
        assert(all[visits.len() as int].path == v.path);
    }
    if visited(all, p) {
        let i = choose|i: int| 0 <= i < all.len() && p.is_prefix_of(#[trigger] all[i].path);
        if i < visits.len() {
            assert(visits[i].path == all[i].path);
        }
    }
}

/// A visit elsewhere leaves a subtree as it is.
proof fn lemma_records_elsewhere(b: TreeBuilder, p: Seq<Seq<char>>, visits: Seq<Visit>, v: Visit)
    requires
        records(b, p, visits),
        !p.is_prefix_of(v.path),
    ensures
        records(b, p, visits.push(v)),
    decreases b,
{
    lemma_visited_push(visits, v, p);
    assert(p.is_prefix_of(p));
    assert forall|c: Seq<char>| !(#[trigger] p.push(c)).is_prefix_of(v.path) by {
        if p.push(c).is_prefix_of(v.path) {
            assert(p.push(c).take(p.len() as int) =~= p);
            assert(p.is_prefix_of(v.path));
        }
    }
    assert forall|i: int| 0 <= i < b.children@.len() implies records(
        #[trigger] b.children@[i],
        p.push(b.children@[i].name@),
        visits.push(v),
    ) by {
        lemma_records_elsewhere(b.children@[i], p.push(b.children@[i].name@), visits, v);
    }
    assert forall|c: Seq<char>| #[trigger] has_builder(b.children@, c) <==> visited(
        visits.push(v),
        p.push(c),
    ) by {
        lemma_visited_push(visits, v, p.push(c));
    }
}

/// The names that a list of frame positions stands for.
spec fn path_names(stack: ResolvedStack, path: Seq<usize>) -> Seq<Seq<char>> {
    Seq::new(path.len(), |i: int| stack.frames()[path[i] as int].function_name@)
}

impl TreeBuilder {
    fn new(name: String) -> (r: Self)
        ensures
            r.name == name,
            forall|p: Seq<Seq<char>>, visits: Seq<Visit>|
                !visited(visits, p) ==> #[trigger] records(r, p, visits),
    {
        let r = TreeBuilder { name, self_time: 0, total_time: 0, children: Vec::new() };
        proof {
            assert forall|p: Seq<Seq<char>>, visits: Seq<Visit>| !visited(visits, p) implies #[trigger] records(r, p, visits) by {
                lemma_unvisited(visits, p);
                assert forall|c: Seq<char>| #[trigger] has_builder(r.children@, c) <==> visited(
                    visits,
                    p.push(c),
                ) by {
                    assert(!visited(visits, p.push(c)));
                }
            }
        }
        r
    }

    /// The position of the child with a name.
    fn child_index(&self, name: &String) -> (r: Option<usize>)
        ensures
            match r {
                Some(i) => i < self.children@.len() && self.children@[i as int].name@ == name@,
                None => !has_builder(self.children@, name@),
            },
    {
        let mut i: usize = 0;
        while i < self.children.len()
            invariant
                i <= self.children@.len(),
                forall|k: int| 0 <= k < i ==> #[trigger] self.children@[k].name@ != name@,
            decreases self.children@.len() - i,
        {
            if self.children[i].name == *name {
                return Some(i);
            }
            i += 1;
        }
        None
    }

    /// Charges time to the path of frames, from `depth` on.
    fn add(
        &mut self,
        stack: &ResolvedStack,
        path: &Vec<usize>,
        depth: usize,
        time: u64,
        Ghost(visits): Ghost<Seq<Visit>>,
    )
        requires
            depth <= path@.len(),
            forall|i: int| 0 <= i < path@.len() ==> #[trigger] path@[i] < stack.frames().len(),
            records(*old(self), path_names(*stack, path@).take(depth as int), visits),
        ensures
            final(self).name == old(self).name,
            records(
                *final(self),
                path_names(*stack, path@).take(depth as int),
                visits.push((Visit { path: path_names(*stack, path@), time })),
            ),
        decreases path@.len() - depth,
    {
        let ghost full = path_names(*stack, path@);
        let ghost p = full.take(depth as int);
        let ghost v = Visit { path: full, time };
        let ghost before = *self;
        proof {
            lemma_visited_push(visits, v, p);
            assert(p.is_prefix_of(full));
        }
        self.total_time = units::capped_add(self.total_time, time);
        if depth == path.len() {
            self.self_time = units::capped_add(self.self_time, time);
            proof {
                assert(p =~= full);
                assert forall|c: Seq<char>| !(#[trigger] p.push(c)).is_prefix_of(v.path) by {}
                assert forall|i: int| 0 <= i < self.children@.len() implies records(
                    #[trigger] self.children@[i],
                    p.push(self.children@[i].name@),
                    visits.push(v),
                ) by {
                    assert(records(before.children@[i], p.push(before.children@[i].name@), visits));
                    lemma_records_elsewhere(
                        self.children@[i],
                        p.push(self.children@[i].name@),
                        visits,
                        v,
                    );
                }
                assert forall|c: Seq<char>| #[trigger] has_builder(self.children@, c) <==> visited(
                    visits.push(v),
                    p.push(c),
                ) by {
                    assert(has_builder(before.children@, c) <==> visited(visits, p.push(c)));
                    lemma_visited_push(visits, v, p.push(c));
                }
            }
        } else {
            let name: &String = &stack.frame(path[depth]).function_name;
            let ghost c0 = full[depth as int];
            let ghost q = full.take(depth + 1);
            proof {
                assert(name@ == c0);
                assert(q =~= p.push(c0));
                assert(p != full);
                assert(has_builder(before.children@, c0) <==> visited(visits, p.push(c0)));
            }
            let position: usize = match self.child_index(name) {
                Some(i) => i,
                None => {
                    let fresh = TreeBuilder::new(name.clone());
                    proof {
                        assert(!visited(visits, q));
                        assert(records(fresh, q, visits));
                    }
                    self.children.push(fresh);
                    self.children.len() - 1
                },
            };
            let ghost mid = *self;
            proof {
                assert(mid.children@[position as int].name@ == c0);
                assert(records(mid.children@[position as int], q, visits)) by {
                    if position < before.children@.len() {
                        assert(mid.children@[position as int] == before.children@[position as int]);
                        assert(records(
                            before.children@[position as int],
                            p.push(before.children@[position as int].name@),
                            visits,
                        ));
                    }
                }
                assert forall|i: int| 0 <= i < mid.children@.len() && i != position implies records(
                    #[trigger] mid.children@[i],
                    p.push(mid.children@[i].name@),
                    visits,
                ) && mid.children@[i].name@ != c0 by {
                    assert(mid.children@[i] == before.children@[i]);
                    if i < position {
                        if position < before.children@.len() {
                            assert(before.children@[i].name@ != before.children@[position as int].name@);
                        }
                    } else {
                        assert(before.children@[position as int].name@ != before.children@[i].name@);
                    }
                }
            }
            self.children[position].add(stack, path, depth + 1, time, Ghost(visits));
            proof {
                assert forall|i: int| 0 <= i < self.children@.len() implies records(
                    #[trigger] self.children@[i],
                    p.push(self.children@[i].name@),
                    visits.push(v),
                ) && self.children@[i].name@ == mid.children@[i].name@ by {
                    if i != position {
                        assert(self.children@[i] == mid.children@[i]);
                        let d = mid.children@[i].name@;
                        assert(!p.push(d).is_prefix_of(full)) by {
                            if p.push(d).is_prefix_of(full) {
                                assert(p.push(d)[depth as int] == full[depth as int]);
                            }
                        }
                        lemma_records_elsewhere(mid.children@[i], p.push(d), visits, v);
                    }
                }
                assert forall|i: int, j: int|
                    #![trigger self.children@[i], self.children@[j]]
                    0 <= i < j < self.children@.len() implies self.children@[i].name@
                    != self.children@[j].name@ by {
                    assert(self.children@[i].name@ == mid.children@[i].name@);
                    assert(self.children@[j].name@ == mid.children@[j].name@);
                    if i != position && j != position {
                        assert(mid.children@[i] == before.children@[i]);
                        assert(mid.children@[j] == before.children@[j]);
                    }
                }
                assert forall|c: Seq<char>| #[trigger] has_builder(self.children@, c) <==> visited(
                    visits.push(v),
                    p.push(c),
                ) by {
                    assert(has_builder(before.children@, c) <==> visited(visits, p.push(c)));
                    lemma_visited_push(visits, v, p.push(c));
                    if c == c0 {
                        assert(self.children@[position as int].name@ == c);
                        assert(p.push(c).is_prefix_of(full));
                    } else {
                        assert(!p.push(c).is_prefix_of(full)) by {
                            if p.push(c).is_prefix_of(full) {
                                assert(p.push(c)[depth as int] == full[depth as int]);
                            }
                        }
                        if has_builder(before.children@, c) {
                            let k = choose|k: int|
                                0 <= k < before.children@.len()
                                    && #[trigger] before.children@[k].name@ == c;
                            assert(mid.children@[k] == before.children@[k]);
                            assert(self.children@[k].name@ == c);
                        }
                        if has_builder(self.children@, c) {
                            let k = choose|k: int|
                                0 <= k < self.children@.len()
                                    && #[trigger] self.children@[k].name@ == c;
                            assert(k != position);
                            assert(mid.children@[k] == before.children@[k]);
                            assert(before.children@[k].name@ == c);
                        }
                    }
                }
            }
        }
    }

    /// The finished node: children whose share is too small are left out, the
    /// others stand in the order of falling total time.
    fn into_node(
        &self,
        whole: u64,
        thread_whole: u64,
        limit: i64,
        Ghost(p): Ghost<Seq<Seq<char>>>,
        Ghost(visits): Ghost<Seq<Visit>>,
    ) -> (r: CallTreeNode)
        requires
            records(*self, p, visits),
        ensures
            r.function_name == self.name,
            shows(r, p, visits, whole, thread_whole, limit as int),
        decreases self,
    {
        let mut keys: Vec<Vec<i128>> = Vec::new();
        let mut i: usize = 0;
        while i < self.children.len()
            invariant
                i <= self.children@.len(),
                keys@.len() == i,
                forall|k: int|
                    0 <= k < i ==> #[trigger] keys@[k]@ == rank::descending(
                        self.children@[k].total_time as int,
                    ),
            decreases self.children@.len() - i,
        {
            let mut key: Vec<i128> = Vec::new();
            rank::push_descending(&mut key, self.children[i].total_time as u128);
            assert(key@ =~= rank::descending(self.children@[i as int].total_time as int));
            keys.push(key);
            i += 1;
        }
        let order = rank::rank(&keys);
        let ghost ks = rank::key_views(keys@);
        let ghost ord = rank::as_ints(order@);
        let mut out: Vec<CallTreeNode> = Vec::new();
        let ghost mut src: Seq<int> = Seq::empty();
        let mut t: usize = 0;
        while t < order.len()
            invariant
                t <= order@.len(),
                records(*self, p, visits),
                order@.len() == self.children@.len(),
                forall|k: int| 0 <= k < order@.len() ==> #[trigger] order@[k] < self.children@.len(),
                src.len() == out@.len(),
                forall|k: int| 0 <= k < src.len() ==> 0 <= #[trigger] src[k] < t,
                forall|k: int, l: int| #![trigger src[k], src[l]]
                    0 <= k < l < src.len() ==> src[k] < src[l],
                forall|k: int|
                    #![trigger out@[k]]
                    0 <= k < out@.len() ==> {
                        let child = self.children@[order@[src[k]] as int];
                        &&& out@[k].function_name == child.name
                        &&& out@[k].total_time_ms == child.total_time
                        &&& (Ratio { part: child.total_time, whole }).reaches(limit as int)
                        &&& shows(
                            out@[k],
                            p.push(child.name@),
                            visits,
                            whole,
                            thread_whole,
                            limit as int,
                        )
                    },
                forall|q: int|
                    0 <= q < t && (Ratio {
                        part: self.children@[#[trigger] order@[q] as int].total_time,
                        whole,
                    }).reaches(limit as int) ==> src.contains(q),
            decreases order@.len() - t,
        {
            let child = &self.children[order[t]];
            let share = Ratio { part: child.total_time, whole };
            proof {
                assert(records(
                    self.children@[order@[t as int] as int],
                    p.push(self.children@[order@[t as int] as int].name@),
                    visits,
                ));
            }
            let ghost src_before = src;
            if share.percent_reaches(limit) {
                let node = child.into_node(
                    whole,
                    thread_whole,
                    limit,
                    Ghost(p.push(child.name@)),
                    Ghost(visits),
                );
                out.push(node);
                proof {
                    src = src.push(t as int);
                    assert(src[src.len() - 1] == t);
                    assert forall|q: int| 0 <= q <= t && (Ratio {
                        part: self.children@[#[trigger] order@[q] as int].total_time,
                        whole,
                    }).reaches(limit as int) implies src.contains(q) by {
                        if q < t {
                            let k = choose|k: int| 0 <= k < src_before.len() && src_before[k] == q;
                            assert(src[k] == q);
                        }
                    }
                }
            }
            t += 1;
        }
        let node = CallTreeNode {
            function_name: self.name.clone(),
            self_time_ms: self.self_time,
            total_time_ms: self.total_time,
            total_percent: Ratio { part: self.total_time, whole },
            thread_percent: Ratio { part: self.total_time, whole: thread_whole },
            children: out,
        };
        proof {
            let cs = node.children@;
            assert forall|k: int, l: int|
                #![trigger cs[k], cs[l]]
                0 <= k < l < cs.len() implies cs[k].function_name@ != cs[l].function_name@
                && cs[k].total_time_ms >= cs[l].total_time_ms by {
                let a = order@[src[k]] as int;
                let b = order@[src[l]] as int;
                assert(src[k] < src[l]);
                assert(ord[src[k]] == a && ord[src[l]] == b);
                assert(rank::key_before(ks, ord[src[k]], ord[src[l]]));
                rank::lemma_ranking_len(ks, ord);
                assert(a != b);
                if a < b {
                    assert(self.children@[a].name@ != self.children@[b].name@);
                } else {
                    assert(self.children@[b].name@ != self.children@[a].name@);
                }
                rank::lemma_descending(
                    self.children@[a].total_time as int,
                    self.children@[b].total_time as int,
                );
                assert(ks[a] == keys@[a]@ && ks[b] == keys@[b]@);
            }
            assert forall|c: Seq<char>| #[trigger] has_child(cs, c) <==> visited(visits, p.push(c))
                && (Ratio {
                part: units::capped(total_at(visits, p.push(c)) as int),
                whole,
            }).reaches(limit as int) by {
                assert(has_builder(self.children@, c) <==> visited(visits, p.push(c)));
                if has_child(cs, c) {
                    let k = choose|k: int| 0 <= k < cs.len() && #[trigger] cs[k].function_name@ == c;
                    let b = order@[src[k]] as int;
                    assert(self.children@[b].name@ == c);
                    assert(records(self.children@[b], p.push(c), visits));
                }
                if visited(visits, p.push(c)) && (Ratio {
                    part: units::capped(total_at(visits, p.push(c)) as int),
                    whole,
                }).reaches(limit as int) {
                    let b = choose|b: int|
                        0 <= b < self.children@.len() && #[trigger] self.children@[b].name@ == c;
                    assert(records(self.children@[b], p.push(c), visits));
                    assert(ord.contains(b));
                    let q = choose|q: int| 0 <= q < ord.len() && ord[q] == b;
                    assert(order@[q] == b);
                    assert(src.contains(q));
                    let k = choose|k: int| 0 <= k < src.len() && src[k] == q;
                    assert(cs[k].function_name@ == c);
                }
            }
        }
        node
    }
}

/// The first frame that has a name, among the first `n`.
pub open spec fn first_named(names: Seq<Seq<char>>, name: Seq<char>, from: int) -> Option<int>
    decreases names.len() - from,
{
    if from < 0 || from >= names.len() {
        None
    } else if names[from] == name {
        Some(from)
    } else {
        first_named(names, name, from + 1)
    }
}

/// Whether the frame at a position has the caller above it.
pub open spec fn has_caller(
    names: Seq<Seq<char>>,
    index: int,
    caller: Seq<char>,
    relationship: CallerRelationship,
) -> bool {
    match relationship {
        CallerRelationship::Ancestor => exists|k: int| 0 <= k < index && names[k] == caller,
        CallerRelationship::Immediate => index > 0 && names[index - 1] == caller,
    }
}

/// Whether a frame is the function with the caller above it.
pub open spec fn under_caller_at(
    names: Seq<Seq<char>>,
    function: Seq<char>,
    caller: Seq<char>,
    relationship: CallerRelationship,
    index: int,
) -> bool {
    0 <= index < names.len() && names[index] == function && has_caller(
        names,
        index,
        caller,
        relationship,
    )
}

/// The first frame from `from` on that is the function with the caller above it.
pub open spec fn first_under_caller(
    names: Seq<Seq<char>>,
    function: Seq<char>,
    caller: Seq<char>,
    relationship: CallerRelationship,
    from: int,
) -> Option<int>
    decreases names.len() - from,
{
    if from < 0 || from >= names.len() {
        None
    } else if under_caller_at(names, function, caller, relationship, from) {
        Some(from)
    } else {
        first_under_caller(names, function, caller, relationship, from + 1)
    }
}

/// The frame that stands for the function under the caller: the leaf if it
/// qualifies, else the outermost frame that does.
pub open spec fn under_caller(
    names: Seq<Seq<char>>,
    function: Seq<char>,
    caller: Seq<char>,
    relationship: CallerRelationship,
) -> Option<int> {
    if under_caller_at(names, function, caller, relationship, names.len() - 1) {
        Some(names.len() - 1)
    } else {
        first_under_caller(names, function, caller, relationship, 0)
    }
}

/// An index as a mathematical integer.
pub open spec fn index_of(r: Option<usize>) -> Option<int> {
    match r {
        Some(i) => Some(i as int),
        None => None,
    }
}

/// The first frame that has a name.
pub fn function_index(stack: &ResolvedStack, function_name: &str) -> (r: Option<usize>)
    ensures
        index_of(r) == first_named(stack.names(), function_name@, 0),
        r matches Some(i) ==> i < stack.frames().len(),
{
    let mut i: usize = 0;
    while i < stack.len()
        invariant
            i <= stack.frames().len(),
            first_named(stack.names(), function_name@, 0) == first_named(
                stack.names(),
                function_name@,
                i as int,
            ),
        decreases stack.frames().len() - i,
    {
        if text::text_eq(stack.frame(i).function_name.as_str(), function_name) {
            return Some(i);
        }
        i += 1;
    }
    None
}

/// The position of a function that has the caller above it. A leaf that
/// qualifies is preferred; else the outermost such frame is taken.
pub fn function_under_caller_index(
    stack: &ResolvedStack,
    function_name: &str,
    caller_name: &str,
    caller_relationship: CallerRelationship,
) -> (r: Option<usize>)
    ensures
        index_of(r) == under_caller(
            stack.names(),
            function_name@,
            caller_name@,
            caller_relationship,
        ),
        r matches Some(i) ==> i < stack.frames().len(),
{
    let ghost names = stack.names();
    let ghost f = function_name@;
    let ghost c = caller_name@;
    let mut first_match: Option<usize> = None;
    let mut caller_seen: bool = false;
    let mut i: usize = 0;
    while i < stack.len()
        invariant
            i <= stack.frames().len(),
            names == stack.names(),
            f == function_name@,
            c == caller_name@,
            caller_seen == exists|k: int| 0 <= k < i && names[k] == c,
            match first_match {
                Some(m) => m < i && m + 1 < names.len() && first_under_caller(
                    names,
                    f,
                    c,
                    caller_relationship,
                    0,
                ) == Some(m as int),
                None => first_under_caller(names, f, c, caller_relationship, 0)
                    == first_under_caller(names, f, c, caller_relationship, i as int),
            },
            i == names.len() ==> !under_caller_at(names, f, c, caller_relationship, names.len() - 1),
        decreases stack.frames().len() - i,
    {
        let name = stack.frame(i).function_name.as_str();
        assert(names[i as int] == name@);
        if text::text_eq(name, function_name) {
            let found: bool = match caller_relationship {
                CallerRelationship::Ancestor => caller_seen,
                CallerRelationship::Immediate => {
                    i > 0 && text::text_eq(stack.frame(i - 1).function_name.as_str(), caller_name)
                },
            };
            if found {
                assert(under_caller_at(names, f, c, caller_relationship, i as int));
                if i + 1 == stack.len() {
                    return Some(i);
                }
                if first_match.is_none() {
                    first_match = Some(i);
                }
            }
        }
        if text::text_eq(name, caller_name) {
            caller_seen = true;
        }
        i += 1;
    }
    first_match
}

/// Where in a stack a tree begins.
pub enum TreeStart<'a> {
    /// At the root of every stack.
    Root,
    /// Below the outermost frame of a function.
    Function(&'a str),
    /// Below a function that has a caller above it.
    UnderCaller {
        function: &'a str,
        caller: &'a str,
        relationship: CallerRelationship,
    },
}

/// Where in a stack a tree begins, as mathematics.
pub enum StartFacts {
    Root,
    Function(Seq<char>),
    UnderCaller { function: Seq<char>, caller: Seq<char>, relationship: CallerRelationship },
}

impl StartFacts {
    /// The first frame that the tree shows, if the stack takes part.
    pub open spec fn first_frame(self, names: Seq<Seq<char>>) -> Option<int> {
        match self {
            StartFacts::Root => Some(0),
            StartFacts::Function(function) => match first_named(names, function, 0) {
                Some(i) => Some(i + 1),
                None => None,
            },
            StartFacts::UnderCaller { function, caller, relationship } => match under_caller(
                names,
                function,
                caller,
                relationship,
            ) {
                Some(i) => Some(i + 1),
                None => None,
            },
        }
    }
}

impl<'a> TreeStart<'a> {
    /// Where the tree begins.
    pub open spec fn facts(self) -> StartFacts {
        match self {
            TreeStart::Root => StartFacts::Root,
            TreeStart::Function(function) => StartFacts::Function(function@),
            TreeStart::UnderCaller { function, caller, relationship } => StartFacts::UnderCaller {
                function: function@,
                caller: caller@,
                relationship,
            },
        }
    }

    fn locate(&self, stack: &ResolvedStack) -> (r: Option<usize>)
        ensures
            index_of(r) == self.facts().first_frame(stack.names()),
            r matches Some(i) ==> i <= stack.frames().len(),
    {
        let size: usize = stack.len();
        match self {
            TreeStart::Root => Some(0),
            TreeStart::Function(function) => match function_index(stack, function) {
                Some(i) => Some(i + 1),
                None => None,
            },
            TreeStart::UnderCaller { function, caller, relationship } => {
                match function_under_caller_index(stack, function, caller, *relationship) {
                    Some(i) => Some(i + 1),
                    None => None,
                }
            },
        }
    }
}

/// The names from `from` up to `to` that pass a filter.
pub open spec fn kept(
    names: Seq<Seq<char>>,
    filter: FrameNameFilter,
    from: int,
    to: int,
) -> Seq<Seq<char>>
    decreases to - from,
{
    if to <= from {
        Seq::empty()
    } else if filter.passes(names[to - 1]) {
        kept(names, filter, from, to - 1).push(names[to - 1])
    } else {
        kept(names, filter, from, to - 1)
    }
}

/// The path that a stack is charged to: the names that pass the filter, at
/// most `limit` of them.
pub open spec fn charged_path(
    names: Seq<Seq<char>>,
    filter: FrameNameFilter,
    from: int,
    limit: int,
) -> Seq<Seq<char>> {
    let all = kept(names, filter, from, names.len() as int);
    if all.len() <= limit {
        all
    } else {
        all.take(limit)
    }
}

proof fn lemma_kept_prefix(
    names: Seq<Seq<char>>,
    filter: FrameNameFilter,
    from: int,
    mid: int,
    to: int,
)
    requires
        from <= mid <= to,
    ensures
        kept(names, filter, from, mid).is_prefix_of(kept(names, filter, from, to)),
    decreases to - mid,
{
    if mid < to {
        lemma_kept_prefix(names, filter, from, mid, to - 1);
        let a = kept(names, filter, from, mid);
        let b = kept(names, filter, from, to - 1);
        let c = kept(names, filter, from, to);
        assert(a =~= c.take(a.len() as int));
    }
}

/// The positions of the frames on the path that a stack is charged to.
fn charged_frames(stack: &ResolvedStack, filter: &FrameNameFilter, from: usize, limit: usize)
    -> (r: Vec<usize>)
    requires
        from <= stack.frames().len(),
    ensures
        forall|i: int| 0 <= i < r@.len() ==> #[trigger] r@[i] < stack.frames().len(),
        path_names(*stack, r@) == charged_path(stack.names(), *filter, from as int, limit as int),
{
    let ghost names = stack.names();
    let mut path: Vec<usize> = Vec::new();
    let mut k: usize = from;
    assert(path_names(*stack, path@) =~= kept(names, *filter, from as int, from as int));
    while k < stack.len() && path.len() < limit
        invariant
            from <= k <= stack.frames().len(),
            names == stack.names(),
            path@.len() <= limit,
            forall|i: int| 0 <= i < path@.len() ==> #[trigger] path@[i] < stack.frames().len(),
            path_names(*stack, path@) == kept(names, *filter, from as int, k as int),
        decreases stack.frames().len() - k,
    {
        let ghost before = path@;
        if filter.includes(stack.frame(k).function_name.as_str()) {
            path.push(k);
            assert(path_names(*stack, path@) =~= path_names(*stack, before).push(names[k as int]));
        }
        k += 1;
    }
    proof {
        lemma_kept_prefix(names, *filter, from as int, k as int, names.len() as int);
        let all = kept(names, *filter, from as int, names.len() as int);
        assert(path_names(*stack, path@) =~= charged_path(
            names,
            *filter,
            from as int,
            limit as int,
        ));
    }
    path
}

/// Whether a sample takes part in a tree.
pub open spec fn takes_part(
    range: Option<AnalysisRange>,
    start: StartFacts,
    sample: ResolvedSample,
) -> bool {
    samples::counts(range, sample) && start.first_frame(sample.stack.names()) is Some
}

/// The visit that a sample makes.
pub open spec fn visit_of(
    thread: ResolvedThread,
    sample: ResolvedSample,
    interval: u64,
    start: StartFacts,
    filter: FrameNameFilter,
    limit: int,
) -> Visit {
    Visit {
        path: charged_path(
            sample.stack.names(),
            filter,
            start.first_frame(sample.stack.names()).unwrap(),
            limit,
        ),
        time: samples::time_of(thread.sample_weight_type, sample, interval),
    }
}

/// The visits of the first `n` samples of a thread.
pub open spec fn thread_visits(
    thread: ResolvedThread,
    interval: u64,
    range: Option<AnalysisRange>,
    start: StartFacts,
    filter: FrameNameFilter,
    limit: int,
    n: int,
) -> Seq<Visit>
    decreases n,
{
    if n <= 0 {
        Seq::empty()
    } else {
        let before = thread_visits(thread, interval, range, start, filter, limit, n - 1);
        let sample = thread.samples@[n - 1];
        if takes_part(range, start, sample) {
            before.push(visit_of(thread, sample, interval, start, filter, limit))
        } else {
            before
        }
    }
}

/// The visits of the first `m` threads.
pub open spec fn all_visits(
    threads: Seq<&ResolvedThread>,
    interval: u64,
    range: Option<AnalysisRange>,
    start: StartFacts,
    filter: FrameNameFilter,
    limit: int,
    m: int,
) -> Seq<Visit>
    decreases m,
{
    if m <= 0 {
        Seq::empty()
    } else {
        let thread = *threads[m - 1];
        all_visits(threads, interval, range, start, filter, limit, m - 1) + thread_visits(
            thread,
            interval,
            range,
            start,
            filter,
            limit,
            thread.samples@.len() as int,
        )
    }
}

/// The time of the counted samples of the first `m` threads.
pub open spec fn threads_time(
    threads: Seq<&ResolvedThread>,
    interval: u64,
    range: Option<AnalysisRange>,
    m: int,
) -> nat
    decreases m,
{
    if m <= 0 {
        0
    } else {
        threads_time(threads, interval, range, m - 1) + samples::time_counted(
            *threads[m - 1],
            interval,
            range,
        )
    }
}

/// The number of counted samples of the first `m` threads.
pub open spec fn threads_samples(
    threads: Seq<&ResolvedThread>,
    range: Option<AnalysisRange>,
    m: int,
) -> nat
    decreases m,
{
    if m <= 0 {
        0
    } else {
        threads_samples(threads, range, m - 1) + samples::samples_counted(*threads[m - 1], range)
    }
}

/// The time of the counted samples of the threads.
pub fn total_thread_time(
    threads: &Vec<&ResolvedThread>,
    interval_ms: u64,
    range: Option<&AnalysisRange>,
) -> (r: u64)
    ensures
        r == units::capped(
            threads_time(
                threads@,
                interval_ms,
                samples::window_of(range),
                threads@.len() as int,
            ) as int,
        ),
{
    let mut total: u64 = 0;
    let mut m: usize = 0;
    while m < threads.len()
        invariant
            m <= threads@.len(),
            total == units::capped(
                threads_time(threads@, interval_ms, samples::window_of(range), m as int) as int,
            ),
        decreases threads@.len() - m,
    {
        let time: u64 = samples::thread_sample_time_ms(threads[m], interval_ms, range);
        total = units::capped_add(total, time);
        m += 1;
    }
    total
}

/// The number of counted samples of the threads.
pub fn total_thread_samples(threads: &Vec<&ResolvedThread>, range: Option<&AnalysisRange>) -> (r: usize)
    ensures
        r == units::capped_count(
            threads_samples(threads@, samples::window_of(range), threads@.len() as int) as int,
        ),
{
    let mut total: usize = 0;
    let mut m: usize = 0;
    while m < threads.len()
        invariant
            m <= threads@.len(),
            total == units::capped_count(
                threads_samples(threads@, samples::window_of(range), m as int) as int,
            ),
        decreases threads@.len() - m,
    {
        total = units::capped_count_add(total, samples::sample_count(threads[m], range));
        m += 1;
    }
    total
}

/// Builds the tree of all visits.
fn build(
    root_name: String,
    threads: &Vec<&ResolvedThread>,
    interval_ms: u64,
    range: Option<&AnalysisRange>,
    start: &TreeStart,
    filter: &FrameNameFilter,
    limit: usize,
) -> (r: (TreeBuilder, usize))
    ensures
        r.0.name == root_name,
        records(
            r.0,
            Seq::empty(),
            all_visits(
                threads@,
                interval_ms,
                samples::window_of(range),
                start.facts(),
                *filter,
                limit as int,
                threads@.len() as int,
            ),
        ),
        r.1 == units::capped_count(
            all_visits(
                threads@,
                interval_ms,
                samples::window_of(range),
                start.facts(),
                *filter,
                limit as int,
                threads@.len() as int,
            ).len() as int,
        ),
{
    let ghost window = samples::window_of(range);
    let ghost lim = limit as int;
    let mut root = TreeBuilder::new(root_name);
    let mut matched: usize = 0;
    let ghost mut visits: Seq<Visit> = Seq::empty();
    let mut m: usize = 0;
    assert(!visited(visits, Seq::empty()));
    while m < threads.len()
        invariant
            m <= threads@.len(),
            window == samples::window_of(range),
            lim == limit,
            root.name == root_name,
            visits == all_visits(threads@, interval_ms, window, start.facts(), *filter, lim, m as int),
            records(root, Seq::empty(), visits),
            matched == units::capped_count(visits.len() as int),
        decreases threads@.len() - m,
    {
        let thread: &ResolvedThread = threads[m];
        let ghost base = visits;
        let mut i: usize = 0;
        assert(base + thread_visits(*thread, interval_ms, window, start.facts(), *filter, lim, 0) =~= base);
        while i < thread.samples.len()
            invariant
                i <= thread.samples@.len(),
                window == samples::window_of(range),
                lim == limit,
                root.name == root_name,
                visits == base + thread_visits(
                    *thread,
                    interval_ms,
                    window,
                    start.facts(),
                    *filter,
                    lim,
                    i as int,
                ),
                records(root, Seq::empty(), visits),
                matched == units::capped_count(visits.len() as int),
            decreases thread.samples@.len() - i,
        {
            let sample = &thread.samples[i];
            if samples::in_window(range, sample) {
                if let Some(from) = start.locate(&sample.stack) {
                    let time: u64 = samples::sample_time_ms(thread, sample, interval_ms);
                    let path = charged_frames(&sample.stack, filter, from, limit);
                    assert(path_names(sample.stack, path@).take(0) =~= Seq::empty());
                    root.add(&sample.stack, &path, 0, time, Ghost(visits));
                    matched = units::capped_count_add(matched, 1);
                    proof {
                        let v = visit_of(*thread, *sample, interval_ms, start.facts(), *filter, lim);
                        visits = visits.push(v);
                        assert(visits =~= base + thread_visits(
                            *thread,
                            interval_ms,
                            window,
                            start.facts(),
                            *filter,
                            lim,
                            i + 1,
                        ));
                    }
                }
            }
            i += 1;
        }
        m += 1;
    }
    (root, matched)
}

/// Whether a tree is that of threads.
pub open spec fn is_call_tree(
    r: CallTreeNode,
    threads: Seq<&ResolvedThread>,
    interval: u64,
    range: Option<AnalysisRange>,
    max_depth: usize,
    min_percent: int,
    filter: FrameNameFilter,
) -> bool {
    let m = threads.len() as int;
    let whole = units::capped(threads_time(threads, interval, range, m) as int);
    r.function_name@ == "(root)"@ && shows(
        r,
        Seq::empty(),
        all_visits(threads, interval, range, StartFacts::Root, filter, max_depth as int, m),
        whole,
        whole,
        min_percent,
    )
}

/// The call tree of the threads. Frames that the filter leaves out pass their
/// time on to the frame above them; what lies deeper than `max_depth` is
/// charged to the last frame shown.
pub fn build_call_tree_for_threads_with_filter(
    threads: &Vec<&ResolvedThread>,
    interval_ms: u64,
    range: Option<&AnalysisRange>,
    max_depth: usize,
    min_percent: i64,
    include_frame: &FrameNameFilter,
) -> (r: CallTreeNode)
    ensures
        is_call_tree(
            r,
            threads@,
            interval_ms,
            samples::window_of(range),
            max_depth,
            min_percent as int,
            *include_frame,
        ),
{
    let total_time: u64 = total_thread_time(threads, interval_ms, range);
    let start = TreeStart::Root;
    let (root, _matched) = build(
        "(root)".to_string(),
        threads,
        interval_ms,
        range,
        &start,
        include_frame,
        max_depth,
    );
    let ghost visits = all_visits(
        threads@,
        interval_ms,
        samples::window_of(range),
        start.facts(),
        *include_frame,
        max_depth as int,
        threads@.len() as int,
    );
    root.into_node(total_time, total_time, min_percent, Ghost(Seq::empty()), Ghost(visits))
}

/// Whether a focused tree shows the visits that begin at a start.
pub open spec fn focuses(
    focused: FocusedCallTree,
    function: Seq<char>,
    threads: Seq<&ResolvedThread>,
    interval: u64,
    range: Option<AnalysisRange>,
    visits: Seq<Visit>,
    limit: int,
) -> bool {
    let m = threads.len() as int;
    let thread_whole = units::capped(threads_time(threads, interval, range, m) as int);
    let whole = units::capped(total_at(visits, Seq::empty()) as int);
    &&& focused.tree.function_name@ == function
    &&& shows(focused.tree, Seq::empty(), visits, whole, thread_whole, limit)
    &&& focused.sample_count == units::capped_count(visits.len() as int)
    &&& focused.total_samples == units::capped_count(threads_samples(threads, range, m) as int)
    &&& focused.focused_time_ms == whole
    &&& focused.focused_percent == (Ratio { part: whole, whole: thread_whole })
}

/// The deepest path that a focused tree shows; the focused function itself
/// counts as one level.
pub open spec fn focus_depth(max_depth: usize) -> int {
    if max_depth == 0 {
        0
    } else {
        max_depth - 1
    }
}

/// Whether a tree, if there is one, is that below a function.
pub open spec fn is_focused_tree(
    r: Option<FocusedCallTree>,
    function: Seq<char>,
    start: StartFacts,
    threads: Seq<&ResolvedThread>,
    interval: u64,
    range: Option<AnalysisRange>,
    max_depth: usize,
    min_percent: int,
    filter: FrameNameFilter,
) -> bool {
    let visits = all_visits(
        threads,
        interval,
        range,
        start,
        filter,
        focus_depth(max_depth),
        threads.len() as int,
    );
    match r {
        Some(focused) => visits.len() > 0 && focuses(
            focused,
            function,
            threads,
            interval,
            range,
            visits,
            min_percent,
        ),
        None => visits.len() == 0,
    }
}

/// Builds a tree below a start.
fn build_focused(
    threads: &Vec<&ResolvedThread>,
    interval_ms: u64,
    range: Option<&AnalysisRange>,
    function_name: &str,
    start: &TreeStart,
    max_depth: usize,
    min_percent: i64,
    include_frame: &FrameNameFilter,
) -> (r: Option<FocusedCallTree>)
    ensures
        is_focused_tree(
            r,
            function_name@,
            start.facts(),
            threads@,
            interval_ms,
            samples::window_of(range),
            max_depth,
            min_percent as int,
            *include_frame,
        ),
{
    let total_time: u64 = total_thread_time(threads, interval_ms, range);
    let total_samples: usize = total_thread_samples(threads, range);
    let limit: usize = if max_depth == 0 {
        0
    } else {
        max_depth - 1
    };
    let (root, matched) = build(
        function_name.to_string(),
        threads,
        interval_ms,
        range,
        start,
        include_frame,
        limit,
    );
    if matched == 0 {
        return None;
    }
    let ghost visits = all_visits(
        threads@,
        interval_ms,
        samples::window_of(range),
        start.facts(),
        *include_frame,
        limit as int,
        threads@.len() as int,
    );
    let focused_time_ms: u64 = root.total_time;
    let tree = root.into_node(
        focused_time_ms,
        total_time,
        min_percent,
        Ghost(Seq::empty()),
        Ghost(visits),
    );
    Some(
        FocusedCallTree {
            tree,
            sample_count: matched,
            total_samples,
            focused_time_ms,
            focused_percent: Ratio { part: focused_time_ms, whole: total_time },
        },
    )
}

/// The call tree below the outermost frame of a function in each stack that
/// holds it; none where no stack does.
pub fn build_focused_call_tree_for_threads_with_filter(
    threads: &Vec<&ResolvedThread>,
    interval_ms: u64,
    range: Option<&AnalysisRange>,
    function_name: &str,
    max_depth: usize,
    min_percent: i64,
    include_frame: &FrameNameFilter,
) -> (r: Option<FocusedCallTree>)
    ensures
        is_focused_tree(
            r,
            function_name@,
            StartFacts::Function(function_name@),
            threads@,
            interval_ms,
            samples::window_of(range),
            max_depth,
            min_percent as int,
            *include_frame,
        ),
{
    let start = TreeStart::Function(function_name);
    build_focused(
        threads,
        interval_ms,
        range,
        function_name,
        &start,
        max_depth,
        min_percent,
        include_frame,
    )
}

/// The call tree below a function that has a caller above it; none where no
/// stack shows it so.
pub fn build_focused_call_tree_under_caller_with_filter(
    threads: &Vec<&ResolvedThread>,
    interval_ms: u64,
    range: Option<&AnalysisRange>,
    function_name: &str,
    caller_name: &str,
    caller_relationship: CallerRelationship,
    max_depth: usize,
    min_percent: i64,
    include_frame: &FrameNameFilter,
) -> (r: Option<FocusedCallTree>)
    ensures
        is_focused_tree(
            r,
            function_name@,
            (StartFacts::UnderCaller {
                function: function_name@,
                caller: caller_name@,
                relationship: caller_relationship,
            }),
            threads@,
            interval_ms,
            samples::window_of(range),
            max_depth,
            min_percent as int,
            *include_frame,
        ),
{
    let start = TreeStart::UnderCaller {
        function: function_name,
        caller: caller_name,
        relationship: caller_relationship,
    };
    build_focused(
        threads,
        interval_ms,
        range,
        function_name,
        &start,
        max_depth,
        min_percent,
        include_frame,
    )
}

/// `depth` levels of indentation.
pub open spec fn indentation(depth: int) -> Seq<char> {
    Seq::new((2 * depth) as nat, |i: int| ' ')
}

/// The line of a node.
pub open spec fn node_line(node: CallTreeNode, depth: int, short_names: bool, show_thread_percent: bool)
    -> Seq<char> {
    let name = if short_names {
        symbols::compact_of(node.function_name@)
    } else {
        node.function_name@
    };
    let own = units::tenths_text(units::nearest(node.self_time_ms as int, 100_000));
    let share = units::tenths_text(node.total_percent.percent_units(10));
    if show_thread_percent {
        indentation(depth) + name + " ["@ + share + "% focus / "@ + units::hundredths_text(
            node.thread_percent.percent_units(100),
        ) + "% thread, "@ + own + "ms self]\n"@
    } else {
        indentation(depth) + name + " ["@ + share + "% total, "@ + own + "ms self]\n"@
    }
}

/// A node and all below it as indented lines, down to a depth.
pub open spec fn rendered(
    node: CallTreeNode,
    depth: int,
    max_depth: int,
    short_names: bool,
    show_thread_percent: bool,
) -> Seq<char>
    decreases node, node.children@.len() + 1,
{
    if depth > max_depth {
        Seq::empty()
    } else {
        node_line(node, depth, short_names, show_thread_percent) + rendered_children(
            node,
            node.children@.len() as int,
            depth,
            max_depth,
            short_names,
            show_thread_percent,
        )
    }
}

/// The first `n` children of a node as indented lines.
pub open spec fn rendered_children(
    node: CallTreeNode,
    n: int,
    depth: int,
    max_depth: int,
    short_names: bool,
    show_thread_percent: bool,
) -> Seq<char>
    decreases node, n,
{
    if n <= 0 || n > node.children@.len() {
        Seq::empty()
    } else {
        rendered_children(node, n - 1, depth, max_depth, short_names, show_thread_percent)
            + rendered(node.children@[n - 1], depth + 1, max_depth, short_names, show_thread_percent)
    }
}

impl CallTreeNode {
    /// The tree as indented lines, down to a depth.
    pub fn render_text_with_options(
        &self,
        max_depth: usize,
        short_names: bool,
        show_thread_percent: bool,
    ) -> (r: String)
        ensures
            r@ == rendered(*self, 0, max_depth as int, short_names, show_thread_percent),
    {
        let mut output = String::new();
        self.render_recursive(&mut output, 0, max_depth, short_names, show_thread_percent);
        assert(output@ =~= rendered(*self, 0, max_depth as int, short_names, show_thread_percent));
        output
    }

    /// The line of the node.
    fn line_text(&self, depth: usize, short_names: bool, show_thread_percent: bool) -> (r: String)
        ensures
            r@ == node_line(*self, depth as int, short_names, show_thread_percent),
    {
        let mut line = String::new();
        let mut level: usize = 0;
        assert(line@ =~= indentation(0));
        while level < depth
            invariant
                level <= depth,
                line@ == indentation(level as int),
            decreases depth - level,
        {
            line.push(' ');
            line.push(' ');
            assert(line@ =~= indentation(level + 1));
            level += 1;
        }
        if short_names {
            let name = symbols::compact_function_name(self.function_name.as_str());
            text::push_text(&mut line, name.as_str());
        } else {
            text::push_text(&mut line, self.function_name.as_str());
        }
        text::push_text(&mut line, " [");
        units::push_percent_tenths(&mut line, &self.total_percent);
        if show_thread_percent {
            text::push_text(&mut line, "% focus / ");
            units::push_percent_hundredths(&mut line, &self.thread_percent);
            text::push_text(&mut line, "% thread, ");
        } else {
            text::push_text(&mut line, "% total, ");
        }
        units::push_ms_tenths(&mut line, self.self_time_ms);
        text::push_text(&mut line, "ms self]\n");
        line
    }

    fn render_recursive(
        &self,
        output: &mut String,
        depth: usize,
        max_depth: usize,
        short_names: bool,
        show_thread_percent: bool,
    )
        ensures
            final(output)@ == old(output)@ + rendered(
                *self,
                depth as int,
                max_depth as int,
                short_names,
                show_thread_percent,
            ),
        decreases self,
    {
        if depth > max_depth {
            assert(output@ =~= old(output)@ + Seq::<char>::empty());
            return;
        }
        let line: String = self.line_text(depth, short_names, show_thread_percent);
        text::push_text(output, line.as_str());
        let ghost base = output@;
        let ghost d = depth as int;
        let ghost m = max_depth as int;
        let mut n: usize = 0;
        assert(base + rendered_children(*self, 0, d, m, short_names, show_thread_percent) =~= base);
        while n < self.children.len()
            invariant
                n <= self.children@.len(),
                depth <= max_depth,
                d == depth,
                m == max_depth,
                output@ == base + rendered_children(
                    *self,
                    n as int,
                    d,
                    m,
                    short_names,
                    show_thread_percent,
                ),
            decreases self.children@.len() - n,
        {
            let child = &self.children[n];
            if depth < max_depth {
                child.render_recursive(output, depth + 1, max_depth, short_names, show_thread_percent);
            }
            assert(output@ =~= base + (rendered_children(
                *self,
                n as int,
                d,
                m,
                short_names,
                show_thread_percent,
            ) + rendered(self.children@[n as int], d + 1, m, short_names, show_thread_percent)));
            n += 1;
        }
        assert(output@ =~= old(output)@ + rendered(*self, d, m, short_names, show_thread_percent));
    }
}

/// The sum of the totals below a path over a list of names.
pub open spec fn children_total(visits: Seq<Visit>, p: Seq<Seq<char>>, names: Seq<Seq<char>>) -> nat
    decreases names.len(),
{
    if names.len() == 0 {
        0
    } else {
        children_total(visits, p, names.drop_last()) + total_at(visits, p.push(names.last()))
    }
}

proof fn lemma_children_total_push(
    visits: Seq<Visit>,
    v: Visit,
    p: Seq<Seq<char>>,
    names: Seq<Seq<char>>,
)
    requires
        names.no_duplicates(),
    ensures
        children_total(visits.push(v), p, names) == children_total(visits, p, names) + if exists|
            i: int,
        |
            0 <= i < names.len() && p.push(#[trigger] names[i]).is_prefix_of(v.path) {
            v.time as nat
        } else {
            0nat
        },
    decreases names.len(),
{
    if names.len() > 0 {
        let rest = names.drop_last();
        let c = names.last();
        lemma_children_total_push(visits, v, p, rest);
        lemma_visited_push(visits, v, p.push(c));
        if p.push(c).is_prefix_of(v.path) {
            assert(p.push(names[names.len() - 1]).is_prefix_of(v.path));
            assert forall|i: int| 0 <= i < rest.len() implies !p.push(#[trigger] rest[i]).is_prefix_of(
                v.path,
            ) by {
                assert(rest[i] == names[i]);
                if p.push(rest[i]).is_prefix_of(v.path) {
                    assert(p.push(rest[i])[p.len() as int] == v.path[p.len() as int]);
                    assert(p.push(c)[p.len() as int] == v.path[p.len() as int]);
                }
            }
        } else {
            if exists|i: int|
                0 <= i < names.len() && p.push(#[trigger] names[i]).is_prefix_of(v.path) {
                let i = choose|i: int|
                    0 <= i < names.len() && p.push(#[trigger] names[i]).is_prefix_of(v.path);
                assert(rest[i] == names[i]);
            }
            if exists|i: int| 0 <= i < rest.len() && p.push(#[trigger] rest[i]).is_prefix_of(v.path) {
                let i = choose|i: int|
                    0 <= i < rest.len() && p.push(#[trigger] rest[i]).is_prefix_of(v.path);
                assert(names[i] == rest[i]);
            }
        }
    }
}

/// The time through a path is the time that ends there plus the time through
/// each of the paths one step longer.
pub proof fn law_time_is_conserved(visits: Seq<Visit>, p: Seq<Seq<char>>, names: Seq<Seq<char>>)
    requires
        names.no_duplicates(),
        forall|c: Seq<char>| visited(visits, #[trigger] p.push(c)) ==> names.contains(c),
    ensures
        total_at(visits, p) == self_at(visits, p) + children_total(visits, p, names),
    decreases visits.len(),
{
    if visits.len() == 0 {
        lemma_children_empty(visits, p, names);
    } else {
        let rest = visits.drop_last();
        let v = visits.last();
        assert(rest.push(v) =~= visits);
        assert forall|c: Seq<char>| visited(rest, #[trigger] p.push(c)) implies names.contains(c) by {
            lemma_visited_push(rest, v, p.push(c));
        }
        law_time_is_conserved(rest, p, names);
        lemma_visited_push(rest, v, p);
        lemma_children_total_push(rest, v, p, names);
        if p.is_prefix_of(v.path) {
            if v.path == p {
                assert forall|i: int| 0 <= i < names.len() implies !p.push(
                    #[trigger] names[i],
                ).is_prefix_of(v.path) by {}
            } else {
                let c = v.path[p.len() as int];
                assert(p.len() < v.path.len()) by {
                    if p.len() == v.path.len() {
                        assert(p =~= v.path);
                    }
                }
                assert(p.push(c).is_prefix_of(v.path)) by {
                    assert(v.path.take((p.len() + 1) as int) =~= p.push(c));
                }
                lemma_visited_push(rest, v, p.push(c));
                assert(names.contains(c));
                let i = choose|i: int| 0 <= i < names.len() && names[i] == c;
                assert(p.push(names[i]).is_prefix_of(v.path));
            }
        } else {
            assert(v.path != p) by {
                assert(p.is_prefix_of(p));
            }
            assert forall|i: int| 0 <= i < names.len() implies !p.push(
                #[trigger] names[i],
            ).is_prefix_of(v.path) by {
                if p.push(names[i]).is_prefix_of(v.path) {
                    assert(p.push(names[i]).take(p.len() as int) =~= p);
                }
            }
        }
    }
}

proof fn lemma_children_empty(visits: Seq<Visit>, p: Seq<Seq<char>>, names: Seq<Seq<char>>)
    requires
        visits.len() == 0,
    ensures
        children_total(visits, p, names) == 0,
    decreases names.len(),
{
    if names.len() > 0 {
        lemma_children_empty(visits, p, names.drop_last());
    }
}

/// The root of a tree carries the time of all visits.
pub proof fn law_root_has_all_time(visits: Seq<Visit>)
    ensures
        total_at(visits, Seq::empty()) == visit_time(visits),
    decreases visits.len(),
{
    if visits.len() > 0 {
        law_root_has_all_time(visits.drop_last());
    }
}

/// A stack is charged only to names that pass the filter, and to no more than
/// the limit.
pub proof fn law_filtered_frames_are_pruned(
    names: Seq<Seq<char>>,
    filter: FrameNameFilter,
    from: int,
    limit: int,
)
    requires
        0 <= limit,
    ensures
        charged_path(names, filter, from, limit).len() <= limit,
        forall|i: int|
            0 <= i < charged_path(names, filter, from, limit).len() ==> filter.passes(
                #[trigger] charged_path(names, filter, from, limit)[i],
            ),
{
    lemma_kept_pass(names, filter, from, names.len() as int);
}

proof fn lemma_kept_pass(names: Seq<Seq<char>>, filter: FrameNameFilter, from: int, to: int)
    ensures
        forall|i: int|
            0 <= i < kept(names, filter, from, to).len() ==> filter.passes(
                #[trigger] kept(names, filter, from, to)[i],
            ),
    decreases to - from,
{
    if from < to {
        lemma_kept_pass(names, filter, from, to - 1);
        let before = kept(names, filter, from, to - 1);
        let after = kept(names, filter, from, to);
        assert forall|i: int| 0 <= i < after.len() implies filter.passes(#[trigger] after[i]) by {
            if i < before.len() {
                assert(after[i] == before[i]);
            }
        }
    }
}

}
