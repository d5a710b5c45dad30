//! Memory samples and the statistics over them.
use crate::c2c::data_source::MemoryDataSource;
use crate::text;
use crate::units;
use std::sync::Arc;
use vstd::prelude::*;

verus! {

/// The cache line size that is assumed of every machine.
pub const DEFAULT_CACHELINE_SIZE: u64 = 64;

/// The samples of a memory recording.
#[derive(Debug)]
pub struct C2cProfile {
    pub arch: Option<String>,
    pub cpu_description: Option<String>,
    pub perf_version: Option<String>,
    pub event_names: Vec<String>,
    pub cacheline_size: u64,
    pub first_timestamp_ns: Option<u64>,
    pub last_timestamp_ns: Option<u64>,
    pub samples: Vec<C2cSample>,
    pub samples_with_callchains: usize,
    pub skipped_samples: usize,
    pub missing_data_address_samples: usize,
    pub missing_physical_address_samples: usize,
}

/// A memory access.
#[derive(Debug, Clone)]
pub struct C2cSample {
    pub timestamp_ns: Option<u64>,
    pub pid: i32,
    pub tid: i32,
    pub cpu: u32,
    pub thread_name: Arc<String>,
    pub instruction_address: u64,
    /// Whether the address is that of the sampled instruction itself.
    pub exact_ip: bool,
    pub data_address: u64,
    pub mapped_data_address: Option<MappedDataAddress>,
    pub physical_address: Option<u64>,
    pub weight: u64,
    pub instruction_latency: Option<u16>,
    pub data_source: MemoryDataSource,
    pub mapped_instruction: Option<MappedInstruction>,
    pub callchain: Arc<Vec<C2cCallchainFrame>>,
}

/// An instruction's place in a file.
#[derive(Debug, Clone, PartialEq, Eq, Hash)]
pub struct MappedInstruction {
    pub path: Arc<String>,
    pub relative_address: u64,
    pub build_id: Option<Arc<String>>,
}

/// The recorded region that holds a data address.
#[derive(Debug, Clone, PartialEq, Eq, Hash)]
pub struct MappedDataAddress {
    pub path: Arc<String>,
    pub mapping_start: u64,
    pub mapping_end: u64,
    pub page_offset: u64,
    /// The address relative to the start of the region.
    pub mapping_offset: u64,
    /// The address relative to the start of the mapped file.
    pub file_offset: u64,
    pub build_id: Option<Arc<String>>,
}

/// A caller of a memory access.
#[derive(Debug, Clone, PartialEq, Eq, Hash)]
pub struct C2cCallchainFrame {
    pub instruction_address: u64,
    pub mapped_instruction: Option<MappedInstruction>,
}

/// An instruction's place, as mathematics.
#[verifier::ext_equal]
pub struct InstructionFacts {
    pub path: Seq<char>,
    pub relative_address: u64,
    pub build_id: Option<Seq<char>>,
}

/// A data address' region, as mathematics.
#[verifier::ext_equal]
pub struct DataFacts {
    pub path: Seq<char>,
    pub mapping_start: u64,
    pub mapping_end: u64,
    pub page_offset: u64,
    pub mapping_offset: u64,
    pub file_offset: u64,
    pub build_id: Option<Seq<char>>,
}

/// A caller, as mathematics.
#[verifier::ext_equal]
pub struct CallerFacts {
    pub instruction_address: u64,
    pub mapped: Option<InstructionFacts>,
}

/// A memory access, as mathematics.
#[verifier::ext_equal]
pub struct AccessFacts {
    pub timestamp_ns: Option<u64>,
    pub pid: i32,
    pub tid: i32,
    pub cpu: u32,
    pub thread_name: Seq<char>,
    pub instruction_address: u64,
    pub exact_ip: bool,
    pub data_address: u64,
    pub mapped_data_address: Option<DataFacts>,
    pub physical_address: Option<u64>,
    pub weight: u64,
    pub instruction_latency: Option<u16>,
    pub data_source: MemoryDataSource,
    pub mapped_instruction: Option<InstructionFacts>,
    pub callchain: Seq<CallerFacts>,
}

/// The text of a shared string, if there is one.
pub open spec fn opt_shared(s: Option<Arc<String>>) -> Option<Seq<char>> {
    match s {
        Some(s) => Some(s@),
        None => None,
    }
}

impl MappedInstruction {
    /// What the place is.
    pub open spec fn facts(self) -> InstructionFacts {
        InstructionFacts {
            path: self.path@,
            relative_address: self.relative_address,
            build_id: opt_shared(self.build_id),
        }
    }

    /// Another handle to the same place.
    pub fn share(&self) -> (r: MappedInstruction)
        ensures
            r == *self,
    {
        MappedInstruction {
            path: crate::shared::share(&self.path),
            relative_address: self.relative_address,
            build_id: share_opt(&self.build_id),
        }
    }

    /// Whether two places are the same.
    pub fn same(&self, other: &MappedInstruction) -> (r: bool)
        ensures
            r == (self.facts() == other.facts()),
    {
        let r: bool = self.relative_address == other.relative_address && text::text_eq(
            self.path.as_str(),
            other.path.as_str(),
        ) && same_opt(&self.build_id, &other.build_id);
        assert(r ==> self.facts() =~= other.facts());
        r
    }
}

/// Another handle to the same text.
pub fn share_opt(s: &Option<Arc<String>>) -> (r: Option<Arc<String>>)
    ensures
        r == *s,
{
    match s {
        Some(s) => Some(crate::shared::share(s)),
        None => None,
    }
}

/// Whether two texts are the same.
pub fn same_opt(a: &Option<Arc<String>>, b: &Option<Arc<String>>) -> (r: bool)
    ensures
        r == (opt_shared(*a) == opt_shared(*b)),
{
    match (a, b) {
        (Some(a), Some(b)) => text::text_eq(a.as_str(), b.as_str()),
        (None, None) => true,
        _ => false,
    }
}

/// What a place is, if it is known.
pub open spec fn opt_instruction(m: Option<MappedInstruction>) -> Option<InstructionFacts> {
    match m {
        Some(m) => Some(m.facts()),
        None => None,
    }
}

/// Whether two places are the same.
pub fn same_instruction(a: &Option<MappedInstruction>, b: &Option<MappedInstruction>) -> (r: bool)
    ensures
        r == (opt_instruction(*a) == opt_instruction(*b)),
{
    match (a, b) {
        (Some(a), Some(b)) => a.same(b),
        (None, None) => true,
        _ => false,
    }
}

/// Another handle to the same place.
pub fn share_instruction(m: &Option<MappedInstruction>) -> (r: Option<MappedInstruction>)
    ensures
        r == *m,
{
    match m {
        Some(m) => Some(m.share()),
        None => None,
    }
}

impl MappedDataAddress {
    /// What the region is.
    pub open spec fn facts(self) -> DataFacts {
        DataFacts {
            path: self.path@,
            mapping_start: self.mapping_start,
            mapping_end: self.mapping_end,
            page_offset: self.page_offset,
            mapping_offset: self.mapping_offset,
            file_offset: self.file_offset,
            build_id: opt_shared(self.build_id),
        }
    }

    /// Whether two addresses are at the same place of the same region.
    pub fn same(&self, other: &MappedDataAddress) -> (r: bool)
        ensures
            r == (self.facts() == other.facts()),
    {
        let r: bool = self.mapping_start == other.mapping_start && self.mapping_end
            == other.mapping_end && self.page_offset == other.page_offset && self.mapping_offset
            == other.mapping_offset && self.file_offset == other.file_offset && text::text_eq(
            self.path.as_str(),
            other.path.as_str(),
        ) && same_opt(&self.build_id, &other.build_id);
        assert(r ==> self.facts() =~= other.facts());
        r
    }
}

/// What a region is, if there is one.
pub open spec fn opt_data(m: Option<MappedDataAddress>) -> Option<DataFacts> {
    match m {
        Some(m) => Some(m.facts()),
        None => None,
    }
}

/// Whether two addresses are at the same place.
pub fn same_data(a: &Option<MappedDataAddress>, b: &Option<MappedDataAddress>) -> (r: bool)
    ensures
        r == (opt_data(*a) == opt_data(*b)),
{
    match (a, b) {
        (Some(a), Some(b)) => a.same(b),
        (None, None) => true,
        _ => false,
    }
}

impl C2cCallchainFrame {
    /// What the caller is.
    pub open spec fn facts(self) -> CallerFacts {
        CallerFacts {
            instruction_address: self.instruction_address,
            mapped: opt_instruction(self.mapped_instruction),
        }
    }
}

/// What callers are.
pub open spec fn callers(s: Seq<C2cCallchainFrame>) -> Seq<CallerFacts> {
    Seq::new(s.len(), |i: int| s[i].facts())
}

/// Whether two callchains are the same.
pub fn same_callers(a: &Vec<C2cCallchainFrame>, b: &Vec<C2cCallchainFrame>) -> (r: bool)
    ensures
        r == (callers(a@) == callers(b@)),
{
    if a.len() != b.len() {
        assert(callers(a@).len() != callers(b@).len());
        return false;
    }
    let mut i: usize = 0;
    while i < a.len()
        invariant
            i <= a@.len() == b@.len(),
            forall|k: int| 0 <= k < i ==> #[trigger] callers(a@)[k] == callers(b@)[k],
        decreases a@.len() - i,
    {
        if a[i].instruction_address != b[i].instruction_address || !same_instruction(
            &a[i].mapped_instruction,
            &b[i].mapped_instruction,
        ) {
            assert(callers(a@)[i as int] != callers(b@)[i as int]);
            return false;
        }
        i += 1;
    }
    assert(callers(a@) =~= callers(b@));
    true
}

impl C2cSample {
    /// What the access is.
    pub open spec fn facts(self) -> AccessFacts {
        AccessFacts {
            timestamp_ns: self.timestamp_ns,
            pid: self.pid,
            tid: self.tid,
            cpu: self.cpu,
            thread_name: self.thread_name@,
            instruction_address: self.instruction_address,
            exact_ip: self.exact_ip,
            data_address: self.data_address,
            mapped_data_address: opt_data(self.mapped_data_address),
            physical_address: self.physical_address,
            weight: self.weight,
            instruction_latency: self.instruction_latency,
            data_source: self.data_source,
            mapped_instruction: opt_instruction(self.mapped_instruction),
            callchain: callers(self.callchain@),
        }
    }
}

/// What accesses are.
pub open spec fn accesses(s: Seq<C2cSample>) -> Seq<AccessFacts> {
    Seq::new(s.len(), |i: int| s[i].facts())
}

/// Counts over memory accesses. Counts and sums stay at the largest number
/// that fits.
#[derive(Debug, Clone, Copy, PartialEq, Eq, Structural)]
pub struct C2cStats {
    pub samples: usize,
    pub loads: usize,
    pub stores: usize,
    pub local_hitm: usize,
    pub remote_hitm: usize,
    pub local_peer: usize,
    pub remote_peer: usize,
    pub locked: usize,
    pub exact_ip_samples: usize,
    pub non_unit_weight_samples: usize,
    pub weight_sum: u128,
    pub instruction_latency_samples: usize,
    pub instruction_latency_sum: u128,
}

/// The counts over no access.
pub open spec fn no_stats() -> C2cStats {
    C2cStats {
        samples: 0,
        loads: 0,
        stores: 0,
        local_hitm: 0,
        remote_hitm: 0,
        local_peer: 0,
        remote_peer: 0,
        locked: 0,
        exact_ip_samples: 0,
        non_unit_weight_samples: 0,
        weight_sum: 0,
        instruction_latency_samples: 0,
        instruction_latency_sum: 0,
    }
}

impl Default for C2cStats {
    fn default() -> (r: Self)
        ensures
            r == no_stats(),
    {
        C2cStats {
            samples: 0,
            loads: 0,
            stores: 0,
            local_hitm: 0,
            remote_hitm: 0,
            local_peer: 0,
            remote_peer: 0,
            locked: 0,
            exact_ip_samples: 0,
            non_unit_weight_samples: 0,
            weight_sum: 0,
            instruction_latency_samples: 0,
            instruction_latency_sum: 0,
        }
    }
}

/// A count after one more, if a condition holds.
pub open spec fn bumped(count: usize, condition: bool) -> usize {
    if condition {
        units::capped_count(count + 1)
    } else {
        count
    }
}

/// A sum after one more number.
pub open spec fn summed(sum: u128, n: int) -> u128 {
    if sum + n > u128::MAX {
        u128::MAX
    } else {
        (sum + n) as u128
    }
}

/// An access' latency, zero where it is not recorded.
pub open spec fn latency_or_zero(latency: Option<u16>) -> int {
    match latency {
        Some(latency) => latency as int,
        None => 0,
    }
}

/// The counts after one more access.
pub open spec fn with_access(stats: C2cStats, s: C2cSample) -> C2cStats {
    let source = s.data_source;
    C2cStats {
        samples: bumped(stats.samples, true),
        loads: bumped(stats.loads, source.loads()),
        stores: bumped(stats.stores, source.stores()),
        local_hitm: bumped(stats.local_hitm, source.hitm() && !source.remote()),
        remote_hitm: bumped(stats.remote_hitm, source.hitm() && source.remote()),
        local_peer: bumped(stats.local_peer, source.peer() && !source.remote()),
        remote_peer: bumped(stats.remote_peer, source.peer() && source.remote()),
        locked: bumped(stats.locked, source.locked()),
        exact_ip_samples: bumped(stats.exact_ip_samples, s.exact_ip),
        non_unit_weight_samples: bumped(stats.non_unit_weight_samples, s.weight != 1),
        weight_sum: summed(stats.weight_sum, s.weight as int),
        instruction_latency_samples: bumped(
            stats.instruction_latency_samples,
            s.instruction_latency is Some,
        ),
        instruction_latency_sum: summed(
            stats.instruction_latency_sum,
            latency_or_zero(s.instruction_latency),
        ),
    }
}

/// The counts over a sequence of accesses.
pub open spec fn stats_of(s: Seq<C2cSample>) -> C2cStats
    decreases s.len(),
{
    if s.len() == 0 {
        no_stats()
    } else {
        with_access(stats_of(s.drop_last()), s.last())
    }
}

/// A count after one more, if a condition holds.
fn bump(count: usize, condition: bool) -> (r: usize)
    ensures
        r == bumped(count, condition),
{
    if condition {
        units::capped_count_add(count, 1)
    } else {
        count
    }
}

/// A sum after one more number.
fn sum_up(sum: u128, n: u64) -> (r: u128)
    ensures
        r == summed(sum, n as int),
{
    if sum > u128::MAX - n as u128 {
        u128::MAX
    } else {
        sum + n as u128
    }
}

/// An average, as an exact fraction. The average of nothing counts as zero.
#[derive(Debug, Clone, Copy, PartialEq, Eq, Structural)]
pub struct Average {
    pub sum: u128,
    pub count: usize,
}

impl C2cStats {
    /// Loads that hit a modified line anywhere.
    pub open spec fn hitm(self) -> usize {
        units::capped_count(self.local_hitm + self.remote_hitm)
    }

    /// Accesses that a peer answered anywhere.
    pub open spec fn peer(self) -> usize {
        units::capped_count(self.local_peer + self.remote_peer)
    }

    /// The average latency, where any is recorded.
    pub open spec fn latency(self) -> Option<Average> {
        if self.instruction_latency_samples == 0 {
            None
        } else {
            Some(
                Average {
                    sum: self.instruction_latency_sum,
                    count: self.instruction_latency_samples,
                },
            )
        }
    }

    /// Counts one more access.
    pub fn add_sample(&mut self, sample: &C2cSample)
        ensures
            *final(self) == with_access(*old(self), *sample),
    {
        let source = sample.data_source;
        let remote: bool = source.is_remote();
        let hitm: bool = source.is_hitm();
        let peer: bool = source.is_peer();
        self.samples = bump(self.samples, true);
        self.loads = bump(self.loads, source.is_load());
        self.stores = bump(self.stores, source.is_store());
        self.local_hitm = bump(self.local_hitm, hitm && !remote);
        self.remote_hitm = bump(self.remote_hitm, hitm && remote);
        self.local_peer = bump(self.local_peer, peer && !remote);
        self.remote_peer = bump(self.remote_peer, peer && remote);
        self.locked = bump(self.locked, source.is_locked());
        self.exact_ip_samples = bump(self.exact_ip_samples, sample.exact_ip);
        self.non_unit_weight_samples = bump(self.non_unit_weight_samples, sample.weight != 1);
        self.weight_sum = sum_up(self.weight_sum, sample.weight);
        let (timed, latency): (bool, u64) = match sample.instruction_latency {
            Some(latency) => (true, latency as u64),
            None => (false, 0),
        };
        self.instruction_latency_samples = bump(self.instruction_latency_samples, timed);
        self.instruction_latency_sum = sum_up(self.instruction_latency_sum, latency);
    }

    /// Loads that hit a modified line anywhere.
    pub fn total_hitm(&self) -> (r: usize)
        ensures
            r == self.hitm(),
    {
        units::capped_count_add(self.local_hitm, self.remote_hitm)
    }

    /// Accesses that a peer answered anywhere.
    pub fn total_peer(&self) -> (r: usize)
        ensures
            r == self.peer(),
    {
        units::capped_count_add(self.local_peer, self.remote_peer)
    }

    /// The average weight of the accesses.
    pub fn average_weight(&self) -> (r: Average)
        ensures
            r == (Average { sum: self.weight_sum, count: self.samples }),
    {
        Average { sum: self.weight_sum, count: self.samples }
    }

    /// The average latency, where any is recorded.
    pub fn average_instruction_latency(&self) -> (r: Option<Average>)
        ensures
            r == self.latency(),
    {
        if self.instruction_latency_samples == 0 {
            None
        } else {
            Some(
                Average {
                    sum: self.instruction_latency_sum,
                    count: self.instruction_latency_samples,
                },
            )
        }
    }
}

/// The number of accesses with a property.
pub open spec fn count_of(s: Seq<C2cSample>, property: spec_fn(C2cSample) -> bool) -> int
    decreases s.len(),
{
    if s.len() == 0 {
        0
    } else {
        count_of(s.drop_last(), property) + if property(s.last()) {
            1int
        } else {
            0
        }
    }
}

/// No more accesses have a property than there are.
pub proof fn lemma_count_bounds(s: Seq<C2cSample>, property: spec_fn(C2cSample) -> bool)
    ensures
        0 <= count_of(s, property) <= s.len(),
    decreases s.len(),
{
    if s.len() > 0 {
        lemma_count_bounds(s.drop_last(), property);
    }
}

/// The counts are the numbers of accesses of each kind, and every access that
/// hits a modified line counts as local or remote, never as both.
pub proof fn law_stats_count_accesses(s: Seq<C2cSample>)
    requires
        s.len() <= usize::MAX,
    ensures
        stats_of(s).samples == s.len(),
        stats_of(s).loads == count_of(s, |x: C2cSample| x.data_source.loads()),
        stats_of(s).stores == count_of(s, |x: C2cSample| x.data_source.stores()),
        stats_of(s).locked == count_of(s, |x: C2cSample| x.data_source.locked()),
        stats_of(s).exact_ip_samples == count_of(s, |x: C2cSample| x.exact_ip),
        stats_of(s).instruction_latency_samples == count_of(
            s,
            |x: C2cSample| x.instruction_latency is Some,
        ),
        stats_of(s).hitm() == count_of(s, |x: C2cSample| x.data_source.hitm()),
        stats_of(s).peer() == count_of(s, |x: C2cSample| x.data_source.peer()),
        stats_of(s).local_hitm + stats_of(s).remote_hitm == stats_of(s).hitm(),
        stats_of(s).local_peer + stats_of(s).remote_peer == stats_of(s).peer(),
    decreases s.len(),
{
    lemma_count_bounds(s, |x: C2cSample| x.data_source.loads());
    lemma_count_bounds(s, |x: C2cSample| x.data_source.stores());
    lemma_count_bounds(s, |x: C2cSample| x.data_source.locked());
    lemma_count_bounds(s, |x: C2cSample| x.exact_ip);
    lemma_count_bounds(s, |x: C2cSample| x.instruction_latency is Some);
    lemma_count_bounds(s, |x: C2cSample| x.data_source.hitm());
    lemma_count_bounds(s, |x: C2cSample| x.data_source.peer());
    if s.len() > 0 {
        law_stats_count_accesses(s.drop_last());
    }
}

}
