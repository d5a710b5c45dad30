//! Time on and off the CPU, from context-switch markers.
use crate::fnv;
use crate::groups;
use crate::groups::{Group, Groups, Keyed};
use crate::profile::resolved::{ResolvedMarker, ResolvedThread};
use crate::rank;
use crate::shared::share;
use crate::sums;
use crate::units;
use crate::units::TimeValue;
use std::sync::Arc;
use vstd::prelude::*;
use vstd::utf8::*;

verus! {

/// A stretch of time that a thread spent on a CPU.
#[derive(Debug, Clone, PartialEq)]
pub struct OnCpuInterval {
    pub start_time_ms: i64,
    pub end_time_ms: i64,
    pub cpu: Arc<String>,
    pub switch_out_reason: Arc<String>,
}

/// A stretch of time on a CPU, as mathematics.
pub struct Stretch {
    pub start: i64,
    pub end: i64,
    pub cpu: Seq<char>,
    pub reason: Seq<char>,
}

/// The stretch that a marker describes, if it is a context-switch marker with
/// two finite times in order.
pub open spec fn stretch_of(marker: ResolvedMarker) -> Option<Stretch> {
    match (marker.context_switch, marker.start_time, marker.end_time) {
        (Some(switch), Some(TimeValue::Finite(start)), Some(TimeValue::Finite(end))) => if end
            >= start {
            Some(Stretch { start, end, cpu: switch.cpu@, reason: switch.switch_out_reason@ })
        } else {
            None
        },
        _ => None,
    }
}

/// The stretches that the first `n` markers describe.
pub open spec fn stretches(markers: Seq<ResolvedMarker>, n: int) -> Seq<Stretch>
    decreases n,
{
    if n <= 0 {
        Seq::empty()
    } else {
        match stretch_of(markers[n - 1]) {
            Some(s) => stretches(markers, n - 1).push(s),
            None => stretches(markers, n - 1),
        }
    }
}

/// Stretches rank by start and then by end.
pub open spec fn by_time() -> spec_fn(Stretch) -> Seq<i128> {
    |s: Stretch| rank::ascending(s.start as int) + rank::ascending(s.end as int)
}

/// The stretches of a thread in the order of their start and end.
pub open spec fn ordered_stretches(thread: ResolvedThread) -> Seq<Stretch> {
    rank::ranked(stretches(thread.markers@, thread.markers@.len() as int), by_time())
}

/// The latest end among the first `n` stretches.
pub open spec fn latest_end(s: Seq<Stretch>, n: int) -> i64
    decreases n,
{
    if n <= 1 {
        s[0].end
    } else if s[n - 1].end > latest_end(s, n - 1) {
        s[n - 1].end
    } else {
        latest_end(s, n - 1)
    }
}

/// The stretch that ran last among the first `n`: the earliest one that
/// reaches their latest end.
pub open spec fn last_runner(s: Seq<Stretch>, n: int) -> int
    decreases n,
{
    if n <= 1 {
        0
    } else if s[n - 1].end > latest_end(s, n - 1) {
        n - 1
    } else {
        last_runner(s, n - 1)
    }
}

/// The larger of two numbers.
pub open spec fn larger(a: int, b: int) -> int {
    if a > b {
        a
    } else {
        b
    }
}

/// The smaller of two numbers.
pub open spec fn smaller(a: int, b: int) -> int {
    if a < b {
        a
    } else {
        b
    }
}

/// Where the observed time begins.
pub open spec fn observed_start(s: Seq<Stretch>, requested: Option<i128>) -> int {
    match requested {
        Some(t) => larger(t as int, s[0].start as int),
        None => s[0].start as int,
    }
}

/// Where the observed time ends.
pub open spec fn observed_end(s: Seq<Stretch>, requested: Option<i128>) -> int {
    let last = latest_end(s, s.len() as int) as int;
    match requested {
        Some(t) => smaller(t as int, last),
        None => last,
    }
}

/// Whether there is any observed time.
pub open spec fn is_observed(s: Seq<Stretch>, start: Option<i128>, end: Option<i128>) -> bool {
    s.len() > 0 && observed_start(s, start) < observed_end(s, end)
}

/// The time of a stretch inside a window.
pub open spec fn time_inside(s: Stretch, from: int, to: int) -> int {
    let start = larger(s.start as int, from);
    let end = smaller(s.end as int, to);
    if end > start {
        end - start
    } else {
        0
    }
}

/// The stretches among the first `n` that spend time in a window, with that time.
pub open spec fn cpu_items(s: Seq<Stretch>, from: int, to: int, n: int) -> Seq<(Seq<char>, u64)>
    decreases n,
{
    if n <= 0 {
        Seq::empty()
    } else {
        let before = cpu_items(s, from, to, n - 1);
        let time = time_inside(s[n - 1], from, to);
        if time > 0 {
            before.push((s[n - 1].cpu, time as u64))
        } else {
            before
        }
    }
}

/// The time of the first `n` stretches in a window.
pub open spec fn time_on_cpu(s: Seq<Stretch>, from: int, to: int, n: int) -> nat
    decreases n,
{
    if n <= 0 {
        0
    } else {
        time_on_cpu(s, from, to, n - 1) + time_inside(s[n - 1], from, to) as nat
    }
}

/// The switches out of the CPU among the first `n` stretches in a window.
pub open spec fn switch_items(s: Seq<Stretch>, from: int, to: int, n: int) -> Seq<
    (Seq<char>, usize, u64),
>
    decreases n,
{
    if n <= 0 {
        Seq::empty()
    } else {
        let before = switch_items(s, from, to, n - 1);
        if from <= s[n - 1].end <= to {
            before.push((s[n - 1].reason, 1usize, 0u64))
        } else {
            before
        }
    }
}

/// A stretch off the CPU, as mathematics.
pub struct Gap {
    pub start: i64,
    pub end: i64,
    pub duration: u64,
    pub reason: Seq<char>,
    pub previous_cpu: Seq<char>,
    pub next_cpu: Seq<char>,
}

/// The gap before stretch `n`, cut to a window, if there is one.
pub open spec fn gap_before(s: Seq<Stretch>, from: int, to: int, n: int) -> Option<Gap> {
    let covered = latest_end(s, n) as int;
    let previous = s[last_runner(s, n)];
    let start = larger(covered, from);
    let end = smaller(s[n].start as int, to);
    if s[n].start > covered && end > start {
        Some(
            Gap {
                start: start as i64,
                end: end as i64,
                duration: (end - start) as u64,
                reason: previous.reason,
                previous_cpu: previous.cpu,
                next_cpu: s[n].cpu,
            },
        )
    } else {
        None
    }
}

/// The gaps before the first `n` stretches.
pub open spec fn gaps(s: Seq<Stretch>, from: int, to: int, n: int) -> Seq<Gap>
    decreases n,
{
    if n <= 1 {
        Seq::empty()
    } else {
        match gap_before(s, from, to, n - 1) {
            Some(gap) => gaps(s, from, to, n - 1).push(gap),
            None => gaps(s, from, to, n - 1),
        }
    }
}

/// The time that each gap adds to the reason for it.
pub open spec fn gap_items(gs: Seq<Gap>) -> Seq<(Seq<char>, usize, u64)> {
    Seq::new(gs.len(), |i: int| (gs[i].reason, 0usize, gs[i].duration))
}

/// The time of a thread on one CPU.
#[derive(Debug, Clone, PartialEq)]
pub struct CpuUsage {
    pub cpu: String,
    pub interval_count: usize,
    pub on_cpu_time_ms: u64,
}

/// How often and for how long a thread left the CPU for one reason.
#[derive(Debug, Clone, PartialEq)]
pub struct SwitchOutReason {
    pub reason: String,
    pub switch_count: usize,
    pub observed_off_cpu_time_ms: u64,
}

/// A stretch of time off the CPU.
#[derive(Debug, Clone, PartialEq)]
pub struct OffCpuInterval {
    pub start_time_ms: i64,
    pub end_time_ms: i64,
    pub duration_ms: u64,
    pub reason: String,
    pub previous_cpu: String,
    pub next_cpu: String,
}

/// What the context-switch markers of a thread tell.
#[derive(Debug, Clone, PartialEq)]
pub struct ContextSwitchAnalysis {
    pub observed_start_time_ms: i64,
    pub observed_end_time_ms: i64,
    pub observed_duration_ms: u64,
    pub on_cpu_time_ms: u64,
    pub off_cpu_time_ms: u64,
    pub on_cpu_interval_count: usize,
    pub switch_out_count: usize,
    pub cpus: Vec<CpuUsage>,
    pub switch_out_reasons: Vec<SwitchOutReason>,
    pub longest_off_cpu_intervals: Vec<OffCpuInterval>,
}

/// A stretch on a CPU, as one item for the usage of that CPU.
pub struct CpuItem<'a> {
    cpu: &'a String,
    time: u64,
}

impl Keyed for CpuUsage {
    type Model = (Seq<char>, usize, u64);

    type Key = Seq<char>;

    open spec fn model(&self) -> (Seq<char>, usize, u64) {
        (self.cpu@, self.interval_count, self.on_cpu_time_ms)
    }

    open spec fn key(m: (Seq<char>, usize, u64)) -> Seq<char> {
        m.0
    }

    open spec fn bucket(k: Seq<char>) -> u64 {
        fnv::of_text(k)
    }
}

impl<'a> Group<CpuItem<'a>> for CpuUsage {
    type Item = (Seq<char>, u64);

    closed spec fn seen(item: CpuItem<'a>) -> (Seq<char>, u64) {
        (item.cpu@, item.time)
    }

    open spec fn key_of(item: (Seq<char>, u64)) -> Seq<char> {
        item.0
    }

    open spec fn fresh(item: (Seq<char>, u64)) -> (Seq<char>, usize, u64) {
        (item.0, 1usize, item.1)
    }

    open spec fn grown(m: (Seq<char>, usize, u64), item: (Seq<char>, u64)) -> (
        Seq<char>,
        usize,
        u64,
    ) {
        (m.0, units::capped_count(m.1 + 1), units::capped(m.2 + item.1))
    }

    proof fn keeps_key(m: (Seq<char>, usize, u64), item: (Seq<char>, u64)) {
    }

    fn hash(item: &CpuItem<'a>) -> (r: u64) {
        fnv::hash_text(item.cpu.as_str())
    }

    fn accepts(&self, item: &CpuItem<'a>) -> (r: bool) {
        self.cpu == *item.cpu
    }

    fn start(item: &CpuItem<'a>) -> (r: Self) {
        CpuUsage { cpu: item.cpu.clone(), interval_count: 1, on_cpu_time_ms: item.time }
    }

    fn absorb(&mut self, item: &CpuItem<'a>) {
        self.interval_count = units::capped_count_add(self.interval_count, 1);
        self.on_cpu_time_ms = units::capped_add(self.on_cpu_time_ms, item.time);
    }
}

/// A switch or a gap, as one item for the reason behind it.
pub struct ReasonItem<'a> {
    reason: &'a String,
    switches: usize,
    time: u64,
}

impl Keyed for SwitchOutReason {
    type Model = (Seq<char>, usize, u64);

    type Key = Seq<char>;

    open spec fn model(&self) -> (Seq<char>, usize, u64) {
        (self.reason@, self.switch_count, self.observed_off_cpu_time_ms)
    }

    open spec fn key(m: (Seq<char>, usize, u64)) -> Seq<char> {
        m.0
    }

    open spec fn bucket(k: Seq<char>) -> u64 {
        fnv::of_text(k)
    }
}

impl<'a> Group<ReasonItem<'a>> for SwitchOutReason {
    type Item = (Seq<char>, usize, u64);

    closed spec fn seen(item: ReasonItem<'a>) -> (Seq<char>, usize, u64) {
        (item.reason@, item.switches, item.time)
    }

    open spec fn key_of(item: (Seq<char>, usize, u64)) -> Seq<char> {
        item.0
    }

    open spec fn fresh(item: (Seq<char>, usize, u64)) -> (Seq<char>, usize, u64) {
        item
    }

    open spec fn grown(m: (Seq<char>, usize, u64), item: (Seq<char>, usize, u64)) -> (
        Seq<char>,
        usize,
        u64,
    ) {
        (m.0, units::capped_count(m.1 + item.1), units::capped(m.2 + item.2))
    }

    proof fn keeps_key(m: (Seq<char>, usize, u64), item: (Seq<char>, usize, u64)) {
    }

    fn hash(item: &ReasonItem<'a>) -> (r: u64) {
        fnv::hash_text(item.reason.as_str())
    }

    fn accepts(&self, item: &ReasonItem<'a>) -> (r: bool) {
        self.reason == *item.reason
    }

    fn start(item: &ReasonItem<'a>) -> (r: Self) {
        SwitchOutReason {
            reason: item.reason.clone(),
            switch_count: item.switches,
            observed_off_cpu_time_ms: item.time,
        }
    }

    fn absorb(&mut self, item: &ReasonItem<'a>) {
        self.switch_count = units::capped_count_add(self.switch_count, item.switches);
        self.observed_off_cpu_time_ms = units::capped_add(
            self.observed_off_cpu_time_ms,
            item.time,
        );
    }
}

/// CPUs rank by falling time and then by name.
pub open spec fn by_cpu() -> spec_fn((Seq<char>, usize, u64)) -> Seq<i128> {
    |row: (Seq<char>, usize, u64)| rank::descending(row.2 as int) + rank::textual(row.0)
}

/// Reasons rank by falling time, then by falling count, then by name.
pub open spec fn by_reason() -> spec_fn((Seq<char>, usize, u64)) -> Seq<i128> {
    |row: (Seq<char>, usize, u64)|
        rank::descending(row.2 as int) + rank::descending(row.1 as int) + rank::textual(row.0)
}

/// Gaps rank by falling duration and then by start.
pub open spec fn by_duration() -> spec_fn(Gap) -> Seq<i128> {
    |gap: Gap| rank::descending(gap.duration as int) + rank::ascending(gap.start as int)
}

impl OffCpuInterval {
    /// What the interval says, as mathematics.
    pub open spec fn gap(self) -> Gap {
        Gap {
            start: self.start_time_ms,
            end: self.end_time_ms,
            duration: self.duration_ms,
            reason: self.reason@,
            previous_cpu: self.previous_cpu@,
            next_cpu: self.next_cpu@,
        }
    }
}

/// What a list of intervals says.
pub open spec fn gaps_in(s: Seq<OffCpuInterval>) -> Seq<Gap> {
    Seq::new(s.len(), |i: int| s[i].gap())
}

/// The first `n` items, or all where there are fewer.
pub open spec fn at_most<T>(s: Seq<T>, n: int) -> Seq<T> {
    if s.len() <= n {
        s
    } else {
        s.take(n)
    }
}

/// Whether an analysis tells what the stretches of a thread show in a window.
pub open spec fn tells(
    a: ContextSwitchAnalysis,
    s: Seq<Stretch>,
    from: int,
    to: int,
    limit: int,
) -> bool {
    let n = s.len() as int;
    let on = units::capped(time_on_cpu(s, from, to, n) as int) as int;
    &&& a.observed_start_time_ms == from
    &&& a.observed_end_time_ms == to
    &&& a.observed_duration_ms == to - from
    &&& a.on_cpu_time_ms == smaller(on, to - from)
    &&& a.off_cpu_time_ms == to - from - a.on_cpu_time_ms
    &&& a.on_cpu_interval_count == cpu_items(s, from, to, n).len()
    &&& a.switch_out_count == switch_items(s, from, to, n).len()
    &&& groups::models(a.cpus@) == rank::ranked(
        groups::grouped::<CpuItem<'_>, CpuUsage>(cpu_items(s, from, to, n)),
        by_cpu(),
    )
    &&& groups::models(a.switch_out_reasons@) == rank::ranked(
        groups::grouped::<ReasonItem<'_>, SwitchOutReason>(
            switch_items(s, from, to, n) + gap_items(gaps(s, from, to, n)),
        ),
        by_reason(),
    )
    &&& gaps_in(a.longest_off_cpu_intervals@) == at_most(
        rank::ranked(gaps(s, from, to, n), by_duration()),
        limit,
    )
}

impl OnCpuInterval {
    /// What the interval says, as mathematics.
    pub open spec fn stretch(self) -> Stretch {
        Stretch {
            start: self.start_time_ms,
            end: self.end_time_ms,
            cpu: self.cpu@,
            reason: self.switch_out_reason@,
        }
    }

    /// The interval that a marker describes, if it is a context-switch marker
    /// with two finite times in order.
    fn from_marker(marker: &ResolvedMarker) -> (r: Option<Self>)
        ensures
            match r {
                Some(interval) => stretch_of(*marker) == Some(interval.stretch()),
                None => stretch_of(*marker) is None,
            },
    {
        let switch = match &marker.context_switch {
            Some(switch) => switch,
            None => {
                return None;
            },
        };
        match (marker.start_time, marker.end_time) {
            (Some(TimeValue::Finite(start)), Some(TimeValue::Finite(end))) => {
                if end < start {
                    None
                } else {
                    Some(
                        OnCpuInterval {
                            start_time_ms: start,
                            end_time_ms: end,
                            cpu: share(&switch.cpu),
                            switch_out_reason: share(&switch.switch_out_reason),
                        },
                    )
                }
            },
            _ => None,
        }
    }
}

/// What a list of intervals says.
pub open spec fn stretches_in(s: Seq<OnCpuInterval>) -> Seq<Stretch> {
    Seq::new(s.len(), |i: int| s[i].stretch())
}

/// The intervals of a thread in the order of their start and end.
fn ordered_intervals(thread: &ResolvedThread) -> (r: Vec<OnCpuInterval>)
    ensures
        stretches_in(r@) == ordered_stretches(*thread),
        stretches_are_stretches(stretches_in(r@)),
{
    let mut found: Vec<OnCpuInterval> = Vec::new();
    let mut keys: Vec<Vec<i128>> = Vec::new();
    let mut i: usize = 0;
    assert(stretches_in(found@) =~= stretches(thread.markers@, 0));
    while i < thread.markers.len()
        invariant
            i <= thread.markers@.len(),
            stretches_in(found@) == stretches(thread.markers@, i as int),
            stretches_are_stretches(stretches_in(found@)),
            keys@.len() == found@.len(),
            forall|k: int|
                0 <= k < keys@.len() ==> #[trigger] keys@[k]@ == by_time()(found@[k].stretch()),
        decreases thread.markers@.len() - i,
    {
        if let Some(interval) = OnCpuInterval::from_marker(&thread.markers[i]) {
            let ghost before = found@;
            let mut key: Vec<i128> = Vec::new();
            rank::push_ascending(&mut key, interval.start_time_ms as i128);
            rank::push_ascending(&mut key, interval.end_time_ms as i128);
            assert(key@ =~= by_time()(interval.stretch()));
            keys.push(key);
            found.push(interval);
            assert(stretches_in(found@) =~= stretches_in(before).push(interval.stretch()));
        }
        i += 1;
    }
    let ghost all = found@;
    let ghost ks = rank::key_views(keys@);
    let sorted = rank::arrange(found, &keys);
    proof {
        let s = stretches_in(all);
        assert(ks =~= rank::keys_of(s, by_time()));
        rank::lemma_arranged_map(all, ks, |o: OnCpuInterval| o.stretch());
        assert(stretches_in(sorted@) =~= Seq::new(
            all.len(),
            |p: int| (|o: OnCpuInterval| o.stretch())(rank::arranged(all, ks)[p]),
        ));
        assert(s =~= Seq::new(all.len(), |p: int| (|o: OnCpuInterval| o.stretch())(all[p])));
        rank::lemma_ranking_len(ks, rank::ranking(ks));
        assert(stretches_are_stretches(stretches_in(sorted@))) by {
            assert forall|p: int| 0 <= p < sorted@.len() implies (#[trigger] stretches_in(
                sorted@,
            )[p]).start <= stretches_in(sorted@)[p].end by {
                let q = rank::ranking(ks)[p];
                assert(s[q].start <= s[q].end);
            }
        }
    }
    sorted
}

/// Every stretch ends no sooner than it starts.
pub open spec fn stretches_are_stretches(s: Seq<Stretch>) -> bool {
    forall|i: int| 0 <= i < s.len() ==> (#[trigger] s[i]).start <= s[i].end
}

/// The larger of two numbers.
fn max_of(a: i128, b: i128) -> (r: i128)
    ensures
        r == larger(a as int, b as int),
{
    if a > b {
        a
    } else {
        b
    }
}

/// The smaller of two numbers.
fn min_of(a: i128, b: i128) -> (r: i128)
    ensures
        r == smaller(a as int, b as int),
{
    if a < b {
        a
    } else {
        b
    }
}

/// Ranks the usage of the CPUs.
fn rank_cpus(cpus: Vec<CpuUsage>) -> (r: Vec<CpuUsage>)
    ensures
        groups::models(r@) == rank::ranked(groups::models(cpus@), by_cpu()),
{
    let ghost all = cpus@;
    let ghost rows = groups::models(all);
    let mut keys: Vec<Vec<i128>> = Vec::new();
    let mut i: usize = 0;
    while i < cpus.len()
        invariant
            i <= cpus@.len(),
            all == cpus@,
            rows == groups::models(all),
            keys@.len() == i,
            forall|k: int| 0 <= k < i ==> #[trigger] keys@[k]@ == by_cpu()(rows[k]),
        decreases cpus@.len() - i,
    {
        let mut key: Vec<i128> = Vec::new();
        rank::push_descending(&mut key, cpus[i].on_cpu_time_ms as u128);
        rank::push_textual(&mut key, cpus[i].cpu.as_str());
        assert(key@ =~= by_cpu()(rows[i as int]));
        keys.push(key);
        i += 1;
    }
    let ghost ks = rank::key_views(keys@);
    let sorted = rank::arrange(cpus, &keys);
    proof {
        assert(ks =~= rank::keys_of(rows, by_cpu()));
        let f = |row: CpuUsage| row.model();
        rank::lemma_arranged_map(all, ks, f);
        assert(groups::models(sorted@) =~= Seq::new(
            all.len(),
            |p: int| f(rank::arranged(all, ks)[p]),
        ));
        assert(rows =~= Seq::new(all.len(), |p: int| f(all[p])));
    }
    sorted
}

/// Ranks the reasons for leaving the CPU.
fn rank_reasons(reasons: Vec<SwitchOutReason>) -> (r: Vec<SwitchOutReason>)
    ensures
        groups::models(r@) == rank::ranked(groups::models(reasons@), by_reason()),
{
    let ghost all = reasons@;
    let ghost rows = groups::models(all);
    let mut keys: Vec<Vec<i128>> = Vec::new();
    let mut i: usize = 0;
    while i < reasons.len()
        invariant
            i <= reasons@.len(),
            all == reasons@,
            rows == groups::models(all),
            keys@.len() == i,
            forall|k: int| 0 <= k < i ==> #[trigger] keys@[k]@ == by_reason()(rows[k]),
        decreases reasons@.len() - i,
    {
        let mut key: Vec<i128> = Vec::new();
        rank::push_descending(&mut key, reasons[i].observed_off_cpu_time_ms as u128);
        rank::push_descending(&mut key, reasons[i].switch_count as u128);
        rank::push_textual(&mut key, reasons[i].reason.as_str());
        assert(key@ =~= by_reason()(rows[i as int]));
        keys.push(key);
        i += 1;
    }
    let ghost ks = rank::key_views(keys@);
    let sorted = rank::arrange(reasons, &keys);
    proof {
        assert(ks =~= rank::keys_of(rows, by_reason()));
        let f = |row: SwitchOutReason| row.model();
        rank::lemma_arranged_map(all, ks, f);
        assert(groups::models(sorted@) =~= Seq::new(
            all.len(),
            |p: int| f(rank::arranged(all, ks)[p]),
        ));
        assert(rows =~= Seq::new(all.len(), |p: int| f(all[p])));
    }
    sorted
}

/// The longest gaps, at most `limit` of them.
fn longest_gaps(intervals: Vec<OffCpuInterval>, limit: usize) -> (r: Vec<OffCpuInterval>)
    ensures
        gaps_in(r@) == at_most(rank::ranked(gaps_in(intervals@), by_duration()), limit as int),
{
    let ghost all = intervals@;
    let ghost rows = gaps_in(all);
    let mut keys: Vec<Vec<i128>> = Vec::new();
    let mut i: usize = 0;
    while i < intervals.len()
        invariant
            i <= intervals@.len(),
            all == intervals@,
            rows == gaps_in(all),
            keys@.len() == i,
            forall|k: int| 0 <= k < i ==> #[trigger] keys@[k]@ == by_duration()(rows[k]),
        decreases intervals@.len() - i,
    {
        let mut key: Vec<i128> = Vec::new();
        rank::push_descending(&mut key, intervals[i].duration_ms as u128);
        rank::push_ascending(&mut key, intervals[i].start_time_ms as i128);
        assert(key@ =~= by_duration()(rows[i as int]));
        keys.push(key);
        i += 1;
    }
    let ghost ks = rank::key_views(keys@);
    let mut sorted = rank::arrange(intervals, &keys);
    proof {
        assert(ks =~= rank::keys_of(rows, by_duration()));
        let f = |row: OffCpuInterval| row.gap();
        rank::lemma_arranged_map(all, ks, f);
        assert(gaps_in(sorted@) =~= Seq::new(all.len(), |p: int| f(rank::arranged(all, ks)[p])));
        assert(rows =~= Seq::new(all.len(), |p: int| f(all[p])));
    }
    let ghost full = sorted@;
    if sorted.len() > limit {
        sorted.truncate(limit);
        assert(gaps_in(sorted@) =~= gaps_in(full).take(limit as int));
    }
    sorted
}

proof fn lemma_latest_end(s: Seq<Stretch>, n: int)
    requires
        1 <= n <= s.len(),
    ensures
        0 <= last_runner(s, n) < n,
        s[last_runner(s, n)].end == latest_end(s, n),
        forall|i: int| 0 <= i < n ==> (#[trigger] s[i]).end <= latest_end(s, n),
    decreases n,
{
    if n > 1 {
        lemma_latest_end(s, n - 1);
    }
}

/// What the context-switch markers of a thread tell about a window: on-CPU
/// and off-CPU time, use of each CPU, reasons for leaving the CPU, and the
/// longest stretches off it. None where there is no observed time.
pub fn analyze_context_switches(
    thread: &ResolvedThread,
    requested_start_time_ms: Option<i128>,
    requested_end_time_ms: Option<i128>,
    interval_limit: usize,
) -> (r: Option<ContextSwitchAnalysis>)
    ensures
        ({
            let s = ordered_stretches(*thread);
            match r {
                Some(a) => is_observed(s, requested_start_time_ms, requested_end_time_ms) && tells(
                    a,
                    s,
                    observed_start(s, requested_start_time_ms),
                    observed_end(s, requested_end_time_ms),
                    interval_limit as int,
                ),
                None => !is_observed(s, requested_start_time_ms, requested_end_time_ms),
            }
        }),
{
    let intervals = ordered_intervals(thread);
    let ghost s = stretches_in(intervals@);
    let size: usize = intervals.len();
    if size == 0 {
        return None;
    }
    assert(s[0] == intervals@[0].stretch());
    let mut last_end: i64 = intervals[0].end_time_ms;
    let mut n: usize = 1;
    while n < size
        invariant
            1 <= n <= size == intervals@.len(),
            s == stretches_in(intervals@),
            last_end == latest_end(s, n as int),
        decreases size - n,
    {
        assert(s[n as int] == intervals@[n as int].stretch());
        if intervals[n].end_time_ms > last_end {
            last_end = intervals[n].end_time_ms;
        }
        n += 1;
    }
    let first_start: i128 = intervals[0].start_time_ms as i128;
    let from: i128 = match requested_start_time_ms {
        Some(t) => max_of(t, first_start),
        None => first_start,
    };
    let to: i128 = match requested_end_time_ms {
        Some(t) => min_of(t, last_end as i128),
        None => last_end as i128,
    };
    if to <= from {
        return None;
    }
    let observed_duration_ms: u64 = (to - from) as u64;
    let ghost f = from as int;
    let ghost t = to as int;

    let mut cpus: Groups<CpuUsage> = Groups::new();
    let mut reasons: Groups<SwitchOutReason> = Groups::new();
    let mut on_cpu_time_ms: u64 = 0;
    let mut on_cpu_interval_count: usize = 0;
    let mut switch_out_count: usize = 0;
    let mut n: usize = 0;
    while n < size
        invariant
            n <= size == intervals@.len(),
            s == stretches_in(intervals@),
            stretches_are_stretches(s),
            f == from,
            t == to,
            i64::MIN <= f < t <= i64::MAX,
            cpus.well_formed(),
            cpus@ == groups::grouped::<CpuItem<'_>, CpuUsage>(cpu_items(s, f, t, n as int)),
            reasons.well_formed(),
            reasons@ == groups::grouped::<ReasonItem<'_>, SwitchOutReason>(
                switch_items(s, f, t, n as int),
            ),
            on_cpu_time_ms == units::capped(time_on_cpu(s, f, t, n as int) as int),
            on_cpu_interval_count == cpu_items(s, f, t, n as int).len(),
            switch_out_count == switch_items(s, f, t, n as int).len(),
            on_cpu_interval_count <= n,
            switch_out_count <= n,
        decreases size - n,
    {
        let interval = &intervals[n];
        assert(s[n as int] == interval.stretch());
        let end: i128 = interval.end_time_ms as i128;
        if end >= from && end <= to {
            let item = ReasonItem { reason: &*interval.switch_out_reason, switches: 1, time: 0 };
            reasons.add(&item);
            proof {
                let next = switch_items(s, f, t, n + 1);
                assert(next.drop_last() =~= switch_items(s, f, t, n as int));
            }
            switch_out_count += 1;
        }
        let clipped_start: i128 = max_of(interval.start_time_ms as i128, from);
        let clipped_end: i128 = min_of(end, to);
        if clipped_end > clipped_start {
            let duration: u64 = (clipped_end - clipped_start) as u64;
            on_cpu_time_ms = units::capped_add(on_cpu_time_ms, duration);
            on_cpu_interval_count += 1;
            let item = CpuItem { cpu: &*interval.cpu, time: duration };
            cpus.add(&item);
            proof {
                let next = cpu_items(s, f, t, n + 1);
                assert(next.drop_last() =~= cpu_items(s, f, t, n as int));
            }
        }
        n += 1;
    }

    let mut off_cpu_intervals: Vec<OffCpuInterval> = Vec::new();
    let mut covered_until: i64 = intervals[0].end_time_ms;
    let mut previous: usize = 0;
    let ghost switches = switch_items(s, f, t, size as int);
    let mut n: usize = 1;
    proof {
        assert(gaps_in(off_cpu_intervals@) =~= gaps(s, f, t, 1));
        assert(switches + gap_items(gaps(s, f, t, 1)) =~= switches);
    }
    while n < size
        invariant
            1 <= n <= size == intervals@.len(),
            s == stretches_in(intervals@),
            f == from,
            t == to,
            i64::MIN <= f < t <= i64::MAX,
            covered_until == latest_end(s, n as int),
            previous == last_runner(s, n as int),
            previous < n,
            gaps_in(off_cpu_intervals@) == gaps(s, f, t, n as int),
            reasons.well_formed(),
            reasons@ == groups::grouped::<ReasonItem<'_>, SwitchOutReason>(
                switches + gap_items(gaps(s, f, t, n as int)),
            ),
        decreases size - n,
    {
        let next = &intervals[n];
        assert(s[n as int] == next.stretch());
        assert(s[previous as int] == intervals@[previous as int].stretch());
        if next.start_time_ms > covered_until {
            let start: i128 = max_of(covered_until as i128, from);
            let end: i128 = min_of(next.start_time_ms as i128, to);
            if end > start {
                let duration: u64 = (end - start) as u64;
                let before_gap = &intervals[previous];
                let item = ReasonItem {
                    reason: &*before_gap.switch_out_reason,
                    switches: 0,
                    time: duration,
                };
                reasons.add(&item);
                let ghost before = off_cpu_intervals@;
                off_cpu_intervals.push(
                    OffCpuInterval {
                        start_time_ms: start as i64,
                        end_time_ms: end as i64,
                        duration_ms: duration,
                        reason: (*before_gap.switch_out_reason).clone(),
                        previous_cpu: (*before_gap.cpu).clone(),
                        next_cpu: (*next.cpu).clone(),
                    },
                );
                proof {
                    let gap = off_cpu_intervals@.last().gap();
                    assert(gaps_in(off_cpu_intervals@) =~= gaps_in(before).push(gap));
                    assert(gap_before(s, f, t, n as int) == Some(gap));
                    let old_items = switches + gap_items(gaps(s, f, t, n as int));
                    let new_items = switches + gap_items(gaps(s, f, t, n + 1));
                    assert(new_items.drop_last() =~= old_items);
                    assert(new_items.last() == (gap.reason, 0usize, gap.duration));
                }
            }
        }
        if next.end_time_ms > covered_until {
            covered_until = next.end_time_ms;
            previous = n;
        }
        n += 1;
    }

    // Markers of one thread should not overlap. Cut the sum where they do, so
    // that the summary stays consistent.
    if on_cpu_time_ms > observed_duration_ms {
        on_cpu_time_ms = observed_duration_ms;
    }
    let off_cpu_time_ms: u64 = observed_duration_ms - on_cpu_time_ms;
    let cpus = rank_cpus(cpus.finish());
    let switch_out_reasons = rank_reasons(reasons.finish());
    let longest_off_cpu_intervals = longest_gaps(off_cpu_intervals, interval_limit);
    Some(
        ContextSwitchAnalysis {
            observed_start_time_ms: from as i64,
            observed_end_time_ms: to as i64,
            observed_duration_ms,
            on_cpu_time_ms,
            off_cpu_time_ms,
            on_cpu_interval_count,
            switch_out_count,
            cpus,
            switch_out_reasons,
            longest_off_cpu_intervals,
        },
    )
}

/// On-CPU and off-CPU time add up to the observed time, in every analysis.
pub proof fn law_on_and_off_add_up(
    a: ContextSwitchAnalysis,
    s: Seq<Stretch>,
    from: int,
    to: int,
    limit: int,
)
    requires
        from <= to,
        tells(a, s, from, to, limit),
    ensures
        a.on_cpu_time_ms + a.off_cpu_time_ms == a.observed_duration_ms,
{
}


/// No stretch on a CPU that precedes a gap reaches into it, and the gap ends
/// no later than the next stretch begins.
pub proof fn law_gaps_are_idle(s: Seq<Stretch>, from: int, to: int, n: int)
    requires
        1 <= n < s.len(),
        i64::MIN <= from <= to <= i64::MAX,
    ensures
        gap_before(s, from, to, n) matches Some(gap) ==> gap.start < gap.end && gap.end <= s[n].start
            && forall|i: int| 0 <= i < n ==> (#[trigger] s[i]).end <= gap.start,
{
    lemma_latest_end(s, n);
}

proof fn lemma_stretches(markers: Seq<ResolvedMarker>, n: int)
    requires
        0 <= n <= markers.len(),
    ensures
        forall|m: int|
            #![trigger markers[m]]
            0 <= m < n && stretch_of(markers[m]) is Some ==> stretches(markers, n).contains(
                stretch_of(markers[m])->0,
            ),
        forall|i: int|
            0 <= i < stretches(markers, n).len() ==> exists|m: int|
                0 <= m < n && stretch_of(#[trigger] markers[m]) == Some(
                    #[trigger] stretches(markers, n)[i],
                ),
    decreases n,
{
    if n > 0 {
        let before = stretches(markers, n - 1);
        let after = stretches(markers, n);
        lemma_stretches(markers, n - 1);
        assert forall|m: int|
            #![trigger markers[m]]
            0 <= m < n && stretch_of(markers[m]) is Some implies after.contains(
            stretch_of(markers[m])->0,
        ) by {
            let t = stretch_of(markers[m])->0;
            if m < n - 1 {
                assert(before.contains(t));
                let i = choose|i: int| 0 <= i < before.len() && before[i] == t;
                assert(after[i] == t);
            } else {
                assert(after[before.len() as int] == t);
            }
        }
        assert forall|i: int| 0 <= i < after.len() implies exists|m: int|
            0 <= m < n && stretch_of(#[trigger] markers[m]) == Some(#[trigger] after[i]) by {
            if i < before.len() {
                assert(after[i] == before[i]);
                let m = choose|m: int|
                    0 <= m < n - 1 && stretch_of(#[trigger] markers[m]) == Some(before[i]);
                assert(stretch_of(markers[m]) == Some(after[i]));
            } else {
                assert(stretch_of(markers[n - 1]) == Some(after[i]));
            }
        }
    }
}

proof fn lemma_stretch_marker(thread: ResolvedThread, p: int) -> (m: int)
    requires
        0 <= p < ordered_stretches(thread).len(),
    ensures
        0 <= m < thread.markers@.len(),
        stretch_of(thread.markers@[m]) == Some(ordered_stretches(thread)[p]),
{
    let markers = thread.markers@;
    let all = stretches(markers, markers.len() as int);
    let s = ordered_stretches(thread);
    lemma_stretches(markers, markers.len() as int);
    let never = |a: Stretch, b: Stretch| false;
    rank::lemma_ranked_prefers(all, by_time(), never);
    assert(all.contains(s[p]));
    let i = choose|i: int| 0 <= i < all.len() && all[i] == s[p];
    choose|m: int| 0 <= m < markers.len() && stretch_of(#[trigger] markers[m]) == Some(all[i])
}

proof fn lemma_ordered_stretches(thread: ResolvedThread)
    ensures
        ({
            let s = ordered_stretches(thread);
            let markers = thread.markers@;
            &&& forall|p: int, q: int|
                #![trigger s[p], s[q]]
                0 <= p < q < s.len() ==> s[p].start <= s[q].start
            &&& forall|p: int| 0 <= p < s.len() ==> (#[trigger] s[p]).start <= s[p].end
            &&& forall|m: int|
                #![trigger markers[m]]
                0 <= m < markers.len() && stretch_of(markers[m]) is Some ==> s.contains(
                    stretch_of(markers[m])->0,
                )
        }),
{
    let markers = thread.markers@;
    let all = stretches(markers, markers.len() as int);
    let s = ordered_stretches(thread);
    lemma_stretches(markers, markers.len() as int);
    let earlier = |a: Stretch, b: Stretch| a.start < b.start;
    assert forall|i: int, j: int|
        #![trigger all[i], all[j]]
        0 <= i < all.len() && 0 <= j < all.len() && earlier(all[i], all[j]) implies rank::lex_before(
        by_time()(all[i]),
        by_time()(all[j]),
    ) by {
        rank::lemma_ascending_leads(
            all[i].start as int,
            all[j].start as int,
            rank::ascending(all[i].end as int),
            rank::ascending(all[j].end as int),
        );
    }
    rank::lemma_ranked_prefers(all, by_time(), earlier);
    assert forall|p: int, q: int|
        #![trigger s[p], s[q]]
        0 <= p < q < s.len() implies s[p].start <= s[q].start by {
        assert(!earlier(s[q], s[p]));
    }
    assert forall|p: int| 0 <= p < s.len() implies (#[trigger] s[p]).start <= s[p].end by {
        let m = lemma_stretch_marker(thread, p);
    }
    assert forall|m: int|
        #![trigger markers[m]]
        0 <= m < markers.len() && stretch_of(markers[m]) is Some implies s.contains(
        stretch_of(markers[m])->0,
    ) by {
        let t = stretch_of(markers[m])->0;
        assert(all.contains(t));
        let i = choose|i: int| 0 <= i < all.len() && all[i] == t;
        assert(s.contains(all[i]));
    }
}

proof fn lemma_gaps(s: Seq<Stretch>, from: int, to: int, n: int)
    requires
        n <= s.len(),
    ensures
        forall|k: int|
            1 <= k < n && (#[trigger] gap_before(s, from, to, k)) is Some ==> gaps(
                s,
                from,
                to,
                n,
            ).contains(gap_before(s, from, to, k)->0),
        forall|i: int|
            0 <= i < gaps(s, from, to, n).len() ==> exists|k: int|
                1 <= k < n && #[trigger] gap_before(s, from, to, k) == Some(
                    #[trigger] gaps(s, from, to, n)[i],
                ),
    decreases n,
{
    if n > 1 {
        let before = gaps(s, from, to, n - 1);
        let after = gaps(s, from, to, n);
        lemma_gaps(s, from, to, n - 1);
        assert forall|k: int|
            1 <= k < n && (#[trigger] gap_before(s, from, to, k)) is Some implies after.contains(
            gap_before(s, from, to, k)->0,
        ) by {
            let gap = gap_before(s, from, to, k)->0;
            if k < n - 1 {
                let i = choose|i: int| 0 <= i < before.len() && before[i] == gap;
                assert(after[i] == gap);
            } else {
                assert(after[before.len() as int] == gap);
            }
        }
        assert forall|i: int| 0 <= i < after.len() implies exists|k: int|
            1 <= k < n && #[trigger] gap_before(s, from, to, k) == Some(#[trigger] after[i]) by {
            if i < before.len() {
                assert(after[i] == before[i]);
                let k = choose|k: int|
                    1 <= k < n - 1 && #[trigger] gap_before(s, from, to, k) == Some(before[i]);
                assert(gap_before(s, from, to, k) == Some(after[i]));
            } else {
                assert(gap_before(s, from, to, n - 1) == Some(after[i]));
            }
        }
    }
}

/// Whether a marker is no context-switch marker with two finite times in
/// order, or runs before or after some time, but not in it.
pub open spec fn runs_outside(marker: ResolvedMarker, from: int, to: int) -> bool {
    match (marker.context_switch, marker.start_time, marker.end_time) {
        (Some(_), Some(TimeValue::Finite(start)), Some(TimeValue::Finite(end))) => end < start
            || end <= from || start >= to,
        _ => true,
    }
}

proof fn lemma_gap_ranking(list: Seq<OffCpuInterval>, s: Seq<Stretch>, from: int, to: int, limit: int)
    requires
        0 <= limit,
        gaps_in(list) == at_most(
            rank::ranked(gaps(s, from, to, s.len() as int), by_duration()),
            limit,
        ),
    ensures
        list.len() <= limit,
        forall|p: int, q: int|
            #![trigger list[p], list[q]]
            0 <= p < q < list.len() ==> list[p].duration_ms > list[q].duration_ms || (
            list[p].duration_ms == list[q].duration_ms && list[p].start_time_ms
                <= list[q].start_time_ms),
        forall|p: int|
            0 <= p < list.len() ==> exists|k: int|
                1 <= k < s.len() && #[trigger] gap_before(s, from, to, k) == Some(
                    (#[trigger] list[p]).gap(),
                ),
        forall|k: int|
            1 <= k < s.len() && (#[trigger] gap_before(s, from, to, k)) is Some ==> (exists|p: int|
                0 <= p < list.len() && (#[trigger] list[p]).gap() == gap_before(s, from, to, k)->0)
                || (list.len() == limit && forall|p: int|
                0 <= p < limit ==> (#[trigger] list[p]).duration_ms >= gap_before(
                    s,
                    from,
                    to,
                    k,
                )->0.duration),
{
    let n = s.len() as int;
    let all = gaps(s, from, to, n);
    lemma_gaps(s, from, to, n);
    let better = |x: Gap, y: Gap|
        x.duration > y.duration || (x.duration == y.duration && x.start < y.start);
    assert forall|i: int, j: int|
        #![trigger all[i], all[j]]
        0 <= i < all.len() && 0 <= j < all.len() && better(all[i], all[j]) implies rank::lex_before(
        by_duration()(all[i]),
        by_duration()(all[j]),
    ) by {
        let x = all[i];
        let y = all[j];
        rank::lemma_ascending_leads(x.start as int, y.start as int, Seq::empty(), Seq::empty());
        assert(rank::ascending(x.start as int) + Seq::<i128>::empty() =~= rank::ascending(
            x.start as int,
        ));
        assert(rank::ascending(y.start as int) + Seq::<i128>::empty() =~= rank::ascending(
            y.start as int,
        ));
        rank::lemma_descending_leads(
            x.duration as int,
            y.duration as int,
            rank::ascending(x.start as int),
            rank::ascending(y.start as int),
        );
    }
    rank::lemma_ranked_prefers(all, by_duration(), better);
    let sorted = rank::ranked(all, by_duration());
    assert(list.len() == gaps_in(list).len());
    assert forall|p: int| 0 <= p < list.len() implies (#[trigger] list[p]).gap() == sorted[p] by {
        assert(gaps_in(list)[p] == sorted[p]);
    }
    assert forall|p: int, q: int|
        #![trigger list[p], list[q]]
        0 <= p < q < list.len() implies list[p].duration_ms > list[q].duration_ms || (
    list[p].duration_ms == list[q].duration_ms && list[p].start_time_ms <= list[q].start_time_ms) by {
        assert(list[p].gap() == sorted[p] && list[q].gap() == sorted[q]);
        assert(!better(sorted[q], sorted[p]));
    }
    assert forall|p: int| 0 <= p < list.len() implies exists|k: int|
        1 <= k < n && #[trigger] gap_before(s, from, to, k) == Some((#[trigger] list[p]).gap()) by {
        assert(all.contains(sorted[p]));
        let i = choose|i: int| 0 <= i < all.len() && all[i] == sorted[p];
        let k = choose|k: int| 1 <= k < n && #[trigger] gap_before(s, from, to, k) == Some(all[i]);
        assert(gap_before(s, from, to, k) == Some(list[p].gap()));
    }
    assert forall|k: int|
        1 <= k < n && (#[trigger] gap_before(s, from, to, k)) is Some implies (exists|p: int|
        0 <= p < list.len() && (#[trigger] list[p]).gap() == gap_before(s, from, to, k)->0) || (
    list.len() == limit && forall|p: int|
        0 <= p < limit ==> (#[trigger] list[p]).duration_ms >= gap_before(
            s,
            from,
            to,
            k,
        )->0.duration) by {
        let gap = gap_before(s, from, to, k)->0;
        assert(all.contains(gap));
        let i = choose|i: int| 0 <= i < all.len() && all[i] == gap;
        assert(sorted.contains(all[i]));
        let q = choose|q: int| 0 <= q < sorted.len() && sorted[q] == gap;
        if q < list.len() {
            assert(list[q].gap() == gap);
        } else {
            assert forall|p: int| 0 <= p < limit implies (#[trigger] list[p]).duration_ms
                >= gap.duration by {
                assert(list[p].gap() == sorted[p]);
                assert(!better(sorted[q], sorted[p]));
            }
        }
    }
}

proof fn lemma_gap_is_idle(thread: ResolvedThread, from: int, to: int, k: int, gap: Gap, m: int)
    requires
        i64::MIN <= from <= to <= i64::MAX,
        1 <= k < ordered_stretches(thread).len(),
        gap_before(ordered_stretches(thread), from, to, k) == Some(gap),
        0 <= m < thread.markers@.len(),
    ensures
        runs_outside(thread.markers@[m], gap.start as int, gap.end as int),
{
    let s = ordered_stretches(thread);
    let marker = thread.markers@[m];
    lemma_ordered_stretches(thread);
    lemma_latest_end(s, k);
    if stretch_of(marker) is Some {
        let t = stretch_of(marker)->0;
        let i = choose|i: int| 0 <= i < s.len() && s[i] == t;
        if i < k {
            assert(s[i].end <= latest_end(s, k));
        } else if i > k {
            assert(s[k].start <= s[i].start);
        }
    }
}

/// The listed stretches off the CPU lie in the observed time, last as long as
/// from their start to their end, and no context-switch marker runs in them.
pub proof fn law_listed_gaps_are_idle(
    a: ContextSwitchAnalysis,
    thread: ResolvedThread,
    start: Option<i128>,
    end: Option<i128>,
    limit: int,
)
    requires
        0 <= limit,
        is_observed(ordered_stretches(thread), start, end),
        tells(
            a,
            ordered_stretches(thread),
            observed_start(ordered_stretches(thread), start),
            observed_end(ordered_stretches(thread), end),
            limit,
        ),
    ensures
        forall|p: int|
            #![trigger a.longest_off_cpu_intervals@[p]]
            0 <= p < a.longest_off_cpu_intervals@.len() ==> {
                let gap = a.longest_off_cpu_intervals@[p];
                &&& a.observed_start_time_ms <= gap.start_time_ms < gap.end_time_ms
                    <= a.observed_end_time_ms
                &&& gap.duration_ms == gap.end_time_ms - gap.start_time_ms
                &&& forall|m: int|
                    0 <= m < thread.markers@.len() ==> runs_outside(
                        #[trigger] thread.markers@[m],
                        gap.start_time_ms as int,
                        gap.end_time_ms as int,
                    )
            },
{
    let s = ordered_stretches(thread);
    let from = observed_start(s, start);
    let to = observed_end(s, end);
    let list = a.longest_off_cpu_intervals@;
    let markers = thread.markers@;
    lemma_ordered_stretches(thread);
    lemma_latest_end(s, s.len() as int);
    lemma_gap_ranking(list, s, from, to, limit);
    assert forall|p: int| 0 <= p < list.len() implies {
        let gap = #[trigger] list[p];
        &&& a.observed_start_time_ms <= gap.start_time_ms < gap.end_time_ms
            <= a.observed_end_time_ms
        &&& gap.duration_ms == gap.end_time_ms - gap.start_time_ms
        &&& forall|m: int|
            0 <= m < markers.len() ==> runs_outside(
                #[trigger] markers[m],
                gap.start_time_ms as int,
                gap.end_time_ms as int,
            )
    } by {
        let gap = list[p];
        let k = choose|k: int|
            1 <= k < s.len() && #[trigger] gap_before(s, from, to, k) == Some(gap.gap());
        assert forall|m: int| 0 <= m < markers.len() implies runs_outside(
            #[trigger] markers[m],
            gap.start_time_ms as int,
            gap.end_time_ms as int,
        ) by {
            lemma_gap_is_idle(thread, from, to, k, gap.gap(), m);
        }
    }
}

/// The longest stretches off the CPU come first, of equally long ones the
/// earlier first.
pub proof fn law_longest_gaps_lead(
    a: ContextSwitchAnalysis,
    s: Seq<Stretch>,
    from: int,
    to: int,
    limit: int,
)
    requires
        0 <= limit,
        tells(a, s, from, to, limit),
    ensures
        a.longest_off_cpu_intervals@.len() <= limit,
        forall|p: int, q: int|
            #![trigger a.longest_off_cpu_intervals@[p], a.longest_off_cpu_intervals@[q]]
            0 <= p < q < a.longest_off_cpu_intervals@.len() ==> {
                let earlier = a.longest_off_cpu_intervals@[p];
                let later = a.longest_off_cpu_intervals@[q];
                earlier.duration_ms > later.duration_ms || (earlier.duration_ms
                    == later.duration_ms && earlier.start_time_ms <= later.start_time_ms)
            },
{
    lemma_gap_ranking(a.longest_off_cpu_intervals@, s, from, to, limit);
}

/// What is idle in the observed time is either in one of the listed stretches
/// off the CPU or, where the list is full, no longer than any of them.
pub proof fn law_idle_time_is_listed(
    a: ContextSwitchAnalysis,
    thread: ResolvedThread,
    start: Option<i128>,
    end: Option<i128>,
    limit: int,
    idle_from: int,
    idle_to: int,
)
    requires
        0 <= limit,
        is_observed(ordered_stretches(thread), start, end),
        tells(
            a,
            ordered_stretches(thread),
            observed_start(ordered_stretches(thread), start),
            observed_end(ordered_stretches(thread), end),
            limit,
        ),
        a.observed_start_time_ms <= idle_from < idle_to <= a.observed_end_time_ms,
        forall|m: int|
            0 <= m < thread.markers@.len() ==> runs_outside(
                #[trigger] thread.markers@[m],
                idle_from,
                idle_to,
            ),
    ensures
        (exists|p: int|
            #![trigger a.longest_off_cpu_intervals@[p]]
            0 <= p < a.longest_off_cpu_intervals@.len()
                && a.longest_off_cpu_intervals@[p].start_time_ms <= idle_from && idle_to
                <= a.longest_off_cpu_intervals@[p].end_time_ms) || (
        a.longest_off_cpu_intervals@.len() == limit && forall|p: int|
            #![trigger a.longest_off_cpu_intervals@[p]]
            0 <= p < limit ==> a.longest_off_cpu_intervals@[p].duration_ms >= idle_to - idle_from),
{
    let s = ordered_stretches(thread);
    let from = observed_start(s, start);
    let to = observed_end(s, end);
    let n = s.len() as int;
    let list = a.longest_off_cpu_intervals@;
    let markers = thread.markers@;
    lemma_ordered_stretches(thread);
    lemma_latest_end(s, n);
    lemma_gap_ranking(list, s, from, to, limit);
    assert forall|i: int| 0 <= i < n implies (#[trigger] s[i]).end <= idle_from || s[i].start
        >= idle_to by {
        let m = lemma_stretch_marker(thread, i);
        assert(runs_outside(markers[m], idle_from, idle_to));
    }
    let r = last_runner(s, n);
    assert(s[0].end <= idle_from);
    assert(s[r].start >= idle_to);
    let k = lemma_first_after(s, idle_to, r);
    lemma_latest_end(s, k);
    assert(s[last_runner(s, k)].end <= idle_from);
    let gap = gap_before(s, from, to, k)->0;
    assert(gap_before(s, from, to, k) is Some);
    assert(gap.start <= idle_from && idle_to <= gap.end);
    if exists|p: int| 0 <= p < list.len() && (#[trigger] list[p]).gap() == gap {
        let p = choose|p: int| 0 <= p < list.len() && (#[trigger] list[p]).gap() == gap;
        assert(list[p].start_time_ms <= idle_from && idle_to <= list[p].end_time_ms);
    }
}

proof fn lemma_first_after(s: Seq<Stretch>, time: int, r: int) -> (k: int)
    requires
        0 <= r < s.len(),
        s[r].start >= time,
    ensures
        0 <= k <= r,
        s[k].start >= time,
        forall|i: int| 0 <= i < k ==> (#[trigger] s[i]).start < time,
    decreases r,
{
    if forall|i: int| 0 <= i < r ==> (#[trigger] s[i]).start < time {
        r
    } else {
        let i = choose|i: int| 0 <= i < r && (#[trigger] s[i]).start >= time;
        lemma_first_after(s, time, i)
    }
}

/// The CPUs of an analysis fall in time, and those with the same time stand in
/// the order of their names. Reasons for leaving the CPU fall in time off it,
/// then in switches, and then stand in the order of their names.
pub proof fn law_busiest_cpus_lead(
    a: ContextSwitchAnalysis,
    s: Seq<Stretch>,
    from: int,
    to: int,
    limit: int,
)
    requires
        tells(a, s, from, to, limit),
    ensures
        forall|p: int, q: int|
            #![trigger a.cpus@[p], a.cpus@[q]]
            0 <= p < q < a.cpus@.len() ==> {
                let x = a.cpus@[p];
                let y = a.cpus@[q];
                x.on_cpu_time_ms > y.on_cpu_time_ms || (x.on_cpu_time_ms == y.on_cpu_time_ms
                    && !rank::spelled_before(encode_utf8(y.cpu@), encode_utf8(x.cpu@)))
            },
        forall|p: int, q: int|
            #![trigger a.switch_out_reasons@[p], a.switch_out_reasons@[q]]
            0 <= p < q < a.switch_out_reasons@.len() ==> {
                let x = a.switch_out_reasons@[p];
                let y = a.switch_out_reasons@[q];
                x.observed_off_cpu_time_ms > y.observed_off_cpu_time_ms || (
                x.observed_off_cpu_time_ms == y.observed_off_cpu_time_ms && (x.switch_count
                    > y.switch_count || (x.switch_count == y.switch_count && !rank::spelled_before(
                    encode_utf8(y.reason@),
                    encode_utf8(x.reason@),
                ))))
            },
{
    let n = s.len() as int;
    let none = Seq::<i128>::empty();
    let cpus = groups::grouped::<CpuItem<'_>, CpuUsage>(cpu_items(s, from, to, n));
    let busier = |x: (Seq<char>, usize, u64), y: (Seq<char>, usize, u64)|
        x.2 > y.2 || (x.2 == y.2 && rank::spelled_before(encode_utf8(x.0), encode_utf8(y.0)));
    assert forall|i: int, j: int|
        #![trigger cpus[i], cpus[j]]
        0 <= i < cpus.len() && 0 <= j < cpus.len() && busier(cpus[i], cpus[j]) implies rank::lex_before(
        by_cpu()(cpus[i]),
        by_cpu()(cpus[j]),
    ) by {
        let x = cpus[i];
        let y = cpus[j];
        rank::lemma_textual_leads(x.0, y.0, none, none);
        assert(rank::textual(x.0) + none =~= rank::textual(x.0));
        assert(rank::textual(y.0) + none =~= rank::textual(y.0));
        rank::lemma_descending_leads(
            x.2 as int,
            y.2 as int,
            rank::textual(x.0),
            rank::textual(y.0),
        );
    }
    rank::lemma_ranked_prefers(cpus, by_cpu(), busier);
    let sorted = groups::models(a.cpus@);
    assert forall|p: int, q: int|
        #![trigger a.cpus@[p], a.cpus@[q]]
        0 <= p < q < a.cpus@.len() implies !busier(a.cpus@[q].model(), a.cpus@[p].model()) by {
        assert(sorted[p] == a.cpus@[p].model());
        assert(sorted[q] == a.cpus@[q].model());
        assert(!busier(sorted[q], sorted[p]));
    }
    let reasons = groups::grouped::<ReasonItem<'_>, SwitchOutReason>(
        switch_items(s, from, to, n) + gap_items(gaps(s, from, to, n)),
    );
    let worse = |x: (Seq<char>, usize, u64), y: (Seq<char>, usize, u64)|
        x.2 > y.2 || (x.2 == y.2 && (x.1 > y.1 || (x.1 == y.1 && rank::spelled_before(
            encode_utf8(x.0),
            encode_utf8(y.0),
        ))));
    assert forall|i: int, j: int|
        #![trigger reasons[i], reasons[j]]
        0 <= i < reasons.len() && 0 <= j < reasons.len() && worse(reasons[i], reasons[j]) implies rank::lex_before(
        by_reason()(reasons[i]),
        by_reason()(reasons[j]),
    ) by {
        let x = reasons[i];
        let y = reasons[j];
        rank::lemma_textual_leads(x.0, y.0, none, none);
        assert(rank::textual(x.0) + none =~= rank::textual(x.0));
        assert(rank::textual(y.0) + none =~= rank::textual(y.0));
        let u = rank::descending(x.1 as int) + rank::textual(x.0);
        let v = rank::descending(y.1 as int) + rank::textual(y.0);
        rank::lemma_descending_leads(
            x.1 as int,
            y.1 as int,
            rank::textual(x.0),
            rank::textual(y.0),
        );
        rank::lemma_descending_leads(x.2 as int, y.2 as int, u, v);
        assert(by_reason()(x) =~= rank::descending(x.2 as int) + u);
        assert(by_reason()(y) =~= rank::descending(y.2 as int) + v);
    }
    rank::lemma_ranked_prefers(reasons, by_reason(), worse);
    let listed = groups::models(a.switch_out_reasons@);
    assert forall|p: int, q: int|
        #![trigger a.switch_out_reasons@[p], a.switch_out_reasons@[q]]
        0 <= p < q < a.switch_out_reasons@.len() implies !worse(
        a.switch_out_reasons@[q].model(),
        a.switch_out_reasons@[p].model(),
    ) by {
        assert(listed[p] == a.switch_out_reasons@[p].model());
        assert(listed[q] == a.switch_out_reasons@[q].model());
        assert(!worse(listed[q], listed[p]));
    }
}

/// The time on the CPU in a window is what its parts add up to, and over all
/// times it is what the stretches last together.
pub proof fn law_time_splits(s: Seq<Stretch>, from: int, mid: int, to: int, n: int)
    requires
        from <= mid <= to,
        0 <= n <= s.len(),
    ensures
        time_on_cpu(s, from, mid, n) + time_on_cpu(s, mid, to, n) == time_on_cpu(s, from, to, n),
        time_on_cpu(s, from, from, n) == 0,
        (forall|i: int| 0 <= i < n ==> from <= (#[trigger] s[i]).start <= s[i].end <= to)
            ==> time_on_cpu(s, from, to, n) == sums::sum_of(
            s.take(n),
            |t: Stretch|
                if t.end >= t.start {
                    (t.end - t.start) as nat
                } else {
                    0
                },
        ),
    decreases n,
{
    if n > 0 {
        law_time_splits(s, from, mid, to, n - 1);
        assert(s.take(n).drop_last() =~= s.take(n - 1));
        assert(s.take(n).last() == s[n - 1]);
    }
}

/// The time of a CPU is what its stretches spend in the window, and every
/// stretch that spends time there has its CPU listed.
pub proof fn law_cpus_hold_their_time(
    a: ContextSwitchAnalysis,
    s: Seq<Stretch>,
    from: int,
    to: int,
    limit: int,
)
    requires
        from <= to,
        forall|i: int| 0 <= i < s.len() ==> (#[trigger] s[i]).start <= s[i].end,
        tells(a, s, from, to, limit),
    ensures
        forall|p: int|
            #![trigger a.cpus@[p]]
            0 <= p < a.cpus@.len() ==> a.cpus@[p].on_cpu_time_ms == units::capped(
                time_named(s, from, to, a.cpus@[p].cpu@, s.len() as int) as int,
            ),
        forall|i: int|
            #![trigger s[i]]
            0 <= i < s.len() && s[i].start < to && s[i].end > from && s[i].start < s[i].end && from
                < to ==> exists|p: int|
                #![trigger a.cpus@[p]]
                0 <= p < a.cpus@.len() && a.cpus@[p].cpu@ == s[i].cpu,
{
    let n = s.len() as int;
    let items = cpu_items(s, from, to, n);
    let cpus = groups::grouped::<CpuItem<'_>, CpuUsage>(items);
    let never = |x: (Seq<char>, usize, u64), y: (Seq<char>, usize, u64)| false;
    rank::lemma_ranked_prefers(cpus, by_cpu(), never);
    let sorted = groups::models(a.cpus@);
    assert forall|p: int|
        #![trigger a.cpus@[p]]
        0 <= p < a.cpus@.len() implies a.cpus@[p].on_cpu_time_ms == units::capped(
        time_named(s, from, to, a.cpus@[p].cpu@, n) as int,
    ) by {
        assert(sorted[p] == a.cpus@[p].model());
        assert(cpus.contains(sorted[p]));
        let q = choose|q: int| 0 <= q < cpus.len() && cpus[q] == sorted[p];
        let name = a.cpus@[p].cpu@;
        let part = |item: (Seq<char>, u64)|
            if item.0 == name {
                item.1 as nat
            } else {
                0
            };
        groups::lemma_grouped::<CpuItem<'_>, CpuUsage>(items);
        groups::lemma_group_sum::<CpuItem<'_>, CpuUsage>(
            items,
            name,
            |item: (Seq<char>, u64)| item.1 as nat,
            |m: (Seq<char>, usize, u64)| m.2 as nat,
            part,
            u64::MAX as nat,
        );
        assert(<CpuUsage as Keyed>::key(cpus[q]) == name);
        lemma_time_named(s, from, to, name, part, n);
    }
    assert forall|i: int|
        #![trigger s[i]]
        0 <= i < n && s[i].start < to && s[i].end > from && s[i].start < s[i].end && from
            < to implies exists|p: int|
        #![trigger a.cpus@[p]]
        0 <= p < a.cpus@.len() && a.cpus@[p].cpu@ == s[i].cpu by {
        let k = lemma_cpu_item(s, from, to, n, i);
        let q = groups::lemma_item_has_group::<CpuItem<'_>, CpuUsage>(items, k);
        assert(<CpuUsage as Keyed>::key(cpus[q]) == s[i].cpu);
        let ranking = rank::ranked(cpus, by_cpu());
        assert(ranking.contains(cpus[q]));
        let p = choose|p: int| 0 <= p < ranking.len() && ranking[p] == cpus[q];
        assert(sorted[p] == a.cpus@[p].model());
    }
}

/// The time that the first `n` stretches on a CPU spend in a window.
pub open spec fn time_named(s: Seq<Stretch>, from: int, to: int, cpu: Seq<char>, n: int) -> nat
    decreases n,
{
    if n <= 0 {
        0
    } else {
        let t = s[n - 1];
        let start = if t.start < from {
            from
        } else {
            t.start as int
        };
        let end = if t.end > to {
            to
        } else {
            t.end as int
        };
        time_named(s, from, to, cpu, n - 1) + if t.cpu == cpu && end > start {
            (end - start) as nat
        } else {
            0
        }
    }
}

proof fn lemma_time_named(
    s: Seq<Stretch>,
    from: int,
    to: int,
    cpu: Seq<char>,
    part: spec_fn((Seq<char>, u64)) -> nat,
    n: int,
)
    requires
        0 <= n <= s.len(),
        forall|i: int| 0 <= i < s.len() ==> (#[trigger] s[i]).start <= s[i].end,
        forall|item: (Seq<char>, u64)| #[trigger]
            part(item) == if item.0 == cpu {
                item.1 as nat
            } else {
                0
            },
    ensures
        sums::sum_of(cpu_items(s, from, to, n), part) == time_named(s, from, to, cpu, n),
    decreases n,
{
    if n > 0 {
        lemma_time_named(s, from, to, cpu, part, n - 1);
        let before = cpu_items(s, from, to, n - 1);
        let after = cpu_items(s, from, to, n);
        if time_inside(s[n - 1], from, to) > 0 {
            assert(after.drop_last() =~= before);
            assert(after.last() == (s[n - 1].cpu, time_inside(s[n - 1], from, to) as u64));
            assert(part(after.last()) == if after.last().0 == cpu {
                after.last().1 as nat
            } else {
                0
            });
        }
    }
}

proof fn lemma_cpu_item(s: Seq<Stretch>, from: int, to: int, n: int, i: int) -> (k: int)
    requires
        0 <= i < n <= s.len(),
        time_inside(s[i], from, to) > 0,
    ensures
        0 <= k < cpu_items(s, from, to, n).len(),
        cpu_items(s, from, to, n)[k].0 == s[i].cpu,
    decreases n,
{
    if i < n - 1 {
        lemma_cpu_item(s, from, to, n - 1, i)
    } else {
        cpu_items(s, from, to, n - 1).len() as int
    }
}

/// The observed time starts no earlier than asked and at the first start where
/// nothing is asked, and ends no later than asked and at the last end.
pub proof fn law_observed_time(
    a: ContextSwitchAnalysis,
    thread: ResolvedThread,
    start: Option<i128>,
    end: Option<i128>,
    limit: int,
)
    requires
        is_observed(ordered_stretches(thread), start, end),
        tells(
            a,
            ordered_stretches(thread),
            observed_start(ordered_stretches(thread), start),
            observed_end(ordered_stretches(thread), end),
            limit,
        ),
    ensures
        a.observed_start_time_ms < a.observed_end_time_ms,
        a.observed_duration_ms == a.observed_end_time_ms - a.observed_start_time_ms,
        start matches Some(t) ==> a.observed_start_time_ms >= t,
        end matches Some(t) ==> a.observed_end_time_ms <= t,
        forall|m: int|
            #![trigger thread.markers@[m]]
            0 <= m < thread.markers@.len() && stretch_of(thread.markers@[m]) is Some ==> {
                let t = stretch_of(thread.markers@[m])->0;
                &&& t.start >= a.observed_start_time_ms || (start is Some
                    && a.observed_start_time_ms == start->0)
                &&& t.end <= a.observed_end_time_ms || (end is Some && a.observed_end_time_ms
                    == end->0)
            },
        start is Some && a.observed_start_time_ms == start->0 || exists|m: int|
            #![trigger thread.markers@[m]]
            0 <= m < thread.markers@.len() && thread.markers@[m].start_time == Some(
                TimeValue::Finite(a.observed_start_time_ms),
            ),
{
    let s = ordered_stretches(thread);
    let markers = thread.markers@;
    lemma_ordered_stretches(thread);
    lemma_latest_end(s, s.len() as int);
    assert forall|m: int|
        #![trigger markers[m]]
        0 <= m < markers.len() && stretch_of(markers[m]) is Some implies {
        let t = stretch_of(markers[m])->0;
        &&& t.start >= a.observed_start_time_ms || (start is Some && a.observed_start_time_ms
            == start->0)
        &&& t.end <= a.observed_end_time_ms || (end is Some && a.observed_end_time_ms == end->0)
    } by {
        let t = stretch_of(markers[m])->0;
        let i = choose|i: int| 0 <= i < s.len() && s[i] == t;
        assert(s[i].end <= latest_end(s, s.len() as int));
        if i > 0 {
            assert(s[0].start <= s[i].start);
        }
    }
    let m = lemma_stretch_marker(thread, 0);
    assert(markers[m].start_time == Some(TimeValue::Finite(s[0].start)));
}

/// How many of the first `n` stretches are left for a reason inside a window,
/// both ends of it included.
pub open spec fn switches_for(s: Seq<Stretch>, from: int, to: int, reason: Seq<char>, n: int) -> nat
    decreases n,
{
    if n <= 0 {
        0
    } else {
        switches_for(s, from, to, reason, n - 1) + if s[n - 1].reason == reason && s[n - 1].end
            >= from && s[n - 1].end <= to {
            1nat
        } else {
            0
        }
    }
}

spec fn switches_of(reason: Seq<char>) -> spec_fn((Seq<char>, usize, u64)) -> nat {
    |item: (Seq<char>, usize, u64)|
        if item.0 == reason {
            item.1 as nat
        } else {
            0
        }
}

spec fn time_of(reason: Seq<char>) -> spec_fn((Seq<char>, usize, u64)) -> nat {
    |item: (Seq<char>, usize, u64)|
        if item.0 == reason {
            item.2 as nat
        } else {
            0
        }
}

proof fn lemma_switches(s: Seq<Stretch>, from: int, to: int, reason: Seq<char>, n: int)
    requires
        0 <= n <= s.len(),
    ensures
        sums::sum_of(switch_items(s, from, to, n), switches_of(reason)) == switches_for(
            s,
            from,
            to,
            reason,
            n,
        ),
        sums::sum_of(switch_items(s, from, to, n), time_of(reason)) == 0,
    decreases n,
{
    if n > 0 {
        lemma_switches(s, from, to, reason, n - 1);
        let before = switch_items(s, from, to, n - 1);
        let after = switch_items(s, from, to, n);
        if from <= s[n - 1].end <= to {
            assert(after.drop_last() =~= before);
            assert(after.last() == (s[n - 1].reason, 1usize, 0u64));
        }
    }
}

proof fn lemma_gap_sums(gs: Seq<Gap>, reason: Seq<char>, time: spec_fn(Gap) -> nat)
    requires
        forall|gap: Gap| #[trigger]
            time(gap) == if gap.reason == reason {
                gap.duration as nat
            } else {
                0
            },
    ensures
        sums::sum_of(gap_items(gs), switches_of(reason)) == 0,
        sums::sum_of(gap_items(gs), time_of(reason)) == sums::sum_of(gs, time),
    decreases gs.len(),
{
    if gs.len() > 0 {
        lemma_gap_sums(gs.drop_last(), reason, time);
        let items = gap_items(gs);
        assert(items.drop_last() =~= gap_items(gs.drop_last()));
        assert(items.last() == (gs.last().reason, 0usize, gs.last().duration));
        assert(time(gs.last()) == if gs.last().reason == reason {
            gs.last().duration as nat
        } else {
            0
        });
    }
}

/// A reason for leaving the CPU has as many switches as stretches were left for
/// it in the window, and the time of all gaps that follow such stretches.
pub proof fn law_reasons_hold_their_switches(
    a: ContextSwitchAnalysis,
    s: Seq<Stretch>,
    from: int,
    to: int,
    limit: int,
    p: int,
)
    requires
        tells(a, s, from, to, limit),
        0 <= p < a.switch_out_reasons@.len(),
    ensures
        ({
            let row = a.switch_out_reasons@[p];
            &&& row.switch_count == units::capped_count(
                switches_for(s, from, to, row.reason@, s.len() as int) as int,
            )
            &&& row.observed_off_cpu_time_ms == units::capped(
                sums::sum_of(
                    gaps(s, from, to, s.len() as int),
                    |gap: Gap|
                        if gap.reason == row.reason@ {
                            gap.duration as nat
                        } else {
                            0
                        },
                ) as int,
            )
        }),
{
    let n = s.len() as int;
    let reason = a.switch_out_reasons@[p].reason@;
    let switches = switch_items(s, from, to, n);
    let others = gap_items(gaps(s, from, to, n));
    let items = switches + others;
    let all = groups::grouped::<ReasonItem<'_>, SwitchOutReason>(items);
    let never = |x: (Seq<char>, usize, u64), y: (Seq<char>, usize, u64)| false;
    rank::lemma_ranked_prefers(all, by_reason(), never);
    let sorted = groups::models(a.switch_out_reasons@);
    assert(sorted[p] == a.switch_out_reasons@[p].model());
    assert(all.contains(sorted[p]));
    let g = choose|g: int| 0 <= g < all.len() && all[g] == sorted[p];
    groups::lemma_grouped::<ReasonItem<'_>, SwitchOutReason>(items);
    assert(<SwitchOutReason as Keyed>::key(all[g]) == reason);
    groups::lemma_group_sum::<ReasonItem<'_>, SwitchOutReason>(
        items,
        reason,
        |item: (Seq<char>, usize, u64)| item.1 as nat,
        |m: (Seq<char>, usize, u64)| m.1 as nat,
        switches_of(reason),
        usize::MAX as nat,
    );
    groups::lemma_group_sum::<ReasonItem<'_>, SwitchOutReason>(
        items,
        reason,
        |item: (Seq<char>, usize, u64)| item.2 as nat,
        |m: (Seq<char>, usize, u64)| m.2 as nat,
        time_of(reason),
        u64::MAX as nat,
    );
    sums::lemma_sum_concat(switches, others, switches_of(reason));
    sums::lemma_sum_concat(switches, others, time_of(reason));
    lemma_switches(s, from, to, reason, n);
    lemma_gap_sums(
        gaps(s, from, to, n),
        reason,
        |gap: Gap|
            if gap.reason == reason {
                gap.duration as nat
            } else {
                0
            },
    );
}

/// A gap tells of the stretch that ran last before it, which no earlier one
/// outlasted: its CPU and why it was left; and of the CPU of the next stretch.
pub proof fn law_gaps_name_their_neighbours(s: Seq<Stretch>, from: int, to: int, n: int, i: int)
    requires
        1 <= n < s.len(),
        0 <= i < n,
        forall|k: int| 0 <= k < n ==> (#[trigger] s[k]).end <= s[i].end,
        forall|k: int| 0 <= k < i ==> (#[trigger] s[k]).end < s[i].end,
    ensures
        gap_before(s, from, to, n) matches Some(gap) ==> gap.reason == s[i].reason
            && gap.previous_cpu == s[i].cpu && gap.next_cpu == s[n].cpu,
        gap_before(s, from, to, n) is Some <==> s[i].end < s[n].start && s[i].end < to && from
            < s[n].start && from < to,
{
    lemma_latest_end(s, n);
    lemma_runner_is_first(s, n);
    let r = last_runner(s, n);
    if r < i {
        assert(s[r].end < s[i].end);
    } else if i < r {
        assert(s[i].end <= latest_end(s, n));
    }
}

proof fn lemma_runner_is_first(s: Seq<Stretch>, n: int)
    requires
        1 <= n <= s.len(),
    ensures
        forall|k: int| 0 <= k < last_runner(s, n) ==> (#[trigger] s[k]).end < latest_end(s, n),
    decreases n,
{
    if n > 1 {
        lemma_runner_is_first(s, n - 1);
        lemma_latest_end(s, n - 1);
    }
}

}
