//! Which memory samples a request is about, and how they are told apart.
use crate::c2c::address;
use crate::c2c::classes::{Classifier, Condition};
use crate::c2c::data_source::MemoryDataSource;
use crate::c2c::site;
use crate::c2c::types;
use crate::c2c::types::{C2cProfile, C2cSample, MappedDataAddress};
use crate::fnv;
use crate::mcp::threads;
use crate::sets;
use crate::sets::Ordered;
use crate::text;
use crate::units::TimeValue;
use vstd::prelude::*;

verus! {

/// The samples that a request is about.
pub struct C2cFilter<'a> {
    pub pid: Option<i32>,
    pub tid: Option<i32>,
    pub thread_name_prefix: &'a Option<String>,
    pub start_time_ms: Option<TimeValue>,
    pub end_time_ms: Option<TimeValue>,
}

/// Whether a bound in time cannot be used.
pub open spec fn unusable(time: Option<TimeValue>) -> bool {
    match time {
        Some(TimeValue::Finite(t)) => t < 0,
        Some(TimeValue::NotFinite) => true,
        None => false,
    }
}

/// Why a filter cannot be used, if so.
pub open spec fn filter_error(start: Option<TimeValue>, end: Option<TimeValue>) -> Option<
    Seq<char>,
> {
    if unusable(start) {
        Some("start_time_ms must be a finite, non-negative number"@)
    } else if unusable(end) {
        Some("end_time_ms must be a finite, non-negative number"@)
    } else {
        match (start, end) {
            (Some(TimeValue::Finite(a)), Some(TimeValue::Finite(b))) => if a > b {
                Some("start_time_ms must be less than or equal to end_time_ms"@)
            } else {
                None
            },
            _ => None,
        }
    }
}

/// How long after the first sample another was taken.
pub open spec fn since(first: u64, time: u64) -> int {
    if time >= first {
        time - first
    } else {
        0
    }
}

/// Whether a time lies within bounds relative to the first sample.
pub open spec fn in_time(
    first: Option<u64>,
    time: Option<u64>,
    start: Option<TimeValue>,
    end: Option<TimeValue>,
) -> bool {
    (start is None && end is None) || match (first, time) {
        (Some(first), Some(time)) => (start matches Some(TimeValue::Finite(a)) ==> a <= since(
            first,
            time,
        )) && (end matches Some(TimeValue::Finite(b)) ==> since(first, time) <= b),
        _ => false,
    }
}

/// Whether a sample passes a filter.
pub open spec fn passes(filter: C2cFilter, first: Option<u64>, s: C2cSample) -> bool {
    &&& filter.pid matches Some(pid) ==> s.pid == pid
    &&& filter.tid matches Some(tid) ==> s.tid == tid
    &&& text::opt(*filter.thread_name_prefix) matches Some(prefix) ==> threads::has_prefix(
        s.thread_name@,
        prefix,
    )
    &&& in_time(first, s.timestamp_ns, filter.start_time_ms, filter.end_time_ms)
}

fn is_unusable(time: Option<TimeValue>) -> (r: bool)
    ensures
        r == unusable(time),
{
    match time {
        Some(TimeValue::Finite(t)) => t < 0,
        Some(TimeValue::NotFinite) => true,
        None => false,
    }
}

impl<'a> C2cFilter<'a> {
    /// Rejects bounds in time that cannot be used.
    pub fn validate(&self) -> (r: Result<(), String>)
        ensures
            match r {
                Ok(_) => filter_error(self.start_time_ms, self.end_time_ms) is None,
                Err(e) => filter_error(self.start_time_ms, self.end_time_ms) == Some(e@),
            },
    {
        if is_unusable(self.start_time_ms) {
            return Err("start_time_ms must be a finite, non-negative number".to_string());
        }
        if is_unusable(self.end_time_ms) {
            return Err("end_time_ms must be a finite, non-negative number".to_string());
        }
        match (self.start_time_ms, self.end_time_ms) {
            (Some(TimeValue::Finite(a)), Some(TimeValue::Finite(b))) => {
                if a > b {
                    return Err(
                        "start_time_ms must be less than or equal to end_time_ms".to_string(),
                    );
                }
            },
            _ => {},
        }
        Ok(())
    }

    /// Whether a sample passes.
    pub fn matches(&self, profile: &C2cProfile, sample: &C2cSample) -> (r: bool)
        ensures
            r == passes(*self, profile.first_timestamp_ns, *sample),
    {
        if let Some(pid) = self.pid {
            if sample.pid != pid {
                return false;
            }
        }
        if let Some(tid) = self.tid {
            if sample.tid != tid {
                return false;
            }
        }
        if let Some(prefix) = self.thread_name_prefix {
            if !threads::thread_name_matches_prefix(sample.thread_name.as_str(), prefix.as_str()) {
                return false;
            }
        }
        if self.start_time_ms.is_none() && self.end_time_ms.is_none() {
            return true;
        }
        let (first, time): (u64, u64) = match (profile.first_timestamp_ns, sample.timestamp_ns) {
            (Some(first), Some(time)) => (first, time),
            _ => {
                return false;
            },
        };
        let relative: i128 = if time >= first {
            (time - first) as i128
        } else {
            0
        };
        if let Some(TimeValue::Finite(start)) = self.start_time_ms {
            if relative < start as i128 {
                return false;
            }
        }
        if let Some(TimeValue::Finite(end)) = self.end_time_ms {
            if relative > end as i128 {
                return false;
            }
        }
        true
    }
}

/// A filter in use on a profile.
pub struct Matching<'a> {
    pub filter: &'a C2cFilter<'a>,
    pub profile: &'a C2cProfile,
}

impl<'a> Condition for Matching<'a> {
    open spec fn holds(&self, s: C2cSample) -> bool {
        passes(*self.filter, self.profile.first_timestamp_ns, s)
    }

    fn test(&self, s: &C2cSample) -> (r: bool) {
        self.filter.matches(self.profile, s)
    }
}

/// The sample lies in a recorded region.
pub struct InRegion;

impl Condition for InRegion {
    open spec fn holds(&self, s: C2cSample) -> bool {
        s.mapped_data_address is Some
    }

    fn test(&self, s: &C2cSample) -> (r: bool) {
        s.mapped_data_address.is_some()
    }
}

/// The sample has callers.
pub struct Called;

impl Condition for Called {
    open spec fn holds(&self, s: C2cSample) -> bool {
        s.callchain@.len() > 0
    }

    fn test(&self, s: &C2cSample) -> (r: bool) {
        s.callchain.len() > 0
    }
}

/// The sample accesses a cache line.
pub struct OnLine {
    pub size: u64,
    pub line: u64,
}

impl Condition for OnLine {
    open spec fn holds(&self, s: C2cSample) -> bool {
        address::aligned(s.data_address, self.size) == self.line
    }

    fn test(&self, s: &C2cSample) -> (r: bool) {
        address::line_of(s.data_address, self.size) == self.line
    }
}

/// The text, if there is one.
pub(crate) fn borrowed<'a>(s: &'a Option<String>) -> (r: Option<&'a str>)
    ensures
        text::opt_str(r) == text::opt(*s),
{
    match s {
        Some(s) => Some(s.as_str()),
        None => None,
    }
}

/// The sample answers to an instruction address or a site identifier.
pub struct Selected<'a> {
    pub instruction_address: Option<u64>,
    pub site_id: &'a Option<String>,
}

impl<'a> Condition for Selected<'a> {
    open spec fn holds(&self, s: C2cSample) -> bool {
        site::selected(s, self.instruction_address, text::opt(*self.site_id)) is Some
    }

    fn test(&self, s: &C2cSample) -> (r: bool) {
        site::answers(s, self.instruction_address, borrowed(self.site_id)).is_some()
    }
}

/// A set of cache lines of processes, in rising order.
pub struct LineSet {
    lines: Vec<(i32, u64)>,
}

impl LineSet {
    #[verifier::type_invariant]
    spec fn in_order(self) -> bool {
        sets::rising::<(i32, u64)>(self.lines@)
    }

    /// The lines.
    pub closed spec fn view(&self) -> Seq<(i32, u64)> {
        self.lines@
    }

    /// A set of lines.
    pub fn new(lines: Vec<(i32, u64)>) -> (r: Self)
        requires
            sets::rising::<(i32, u64)>(lines@),
        ensures
            r@ == lines@,
    {
        LineSet { lines }
    }

    /// Whether a line is in the set.
    pub fn has(&self, pid: i32, line: u64) -> (r: bool)
        ensures
            r == self@.contains((pid, line)),
    {
        proof {
            use_type_invariant(self);
        }
        let wanted: (i32, u64) = (pid, line);
        let mut lo: usize = 0;
        let mut hi: usize = self.lines.len();
        while lo < hi
            invariant
                lo <= hi <= self.lines@.len(),
                wanted == (pid, line),
                sets::rising::<(i32, u64)>(self.lines@),
                forall|i: int|
                    0 <= i < lo ==> <(i32, u64) as Ordered>::before(
                        #[trigger] self.lines@[i],
                        wanted,
                    ),
                forall|i: int|
                    hi <= i < self.lines@.len() ==> !<(i32, u64) as Ordered>::before(
                        #[trigger] self.lines@[i],
                        wanted,
                    ),
            decreases hi - lo,
        {
            let mid: usize = lo + (hi - lo) / 2;
            let ghost at = self.lines@[mid as int];
            if self.lines[mid].less(&wanted) {
                assert forall|i: int| 0 <= i < mid + 1 implies <(i32, u64) as Ordered>::before(
                    #[trigger] self.lines@[i],
                    wanted,
                ) by {
                    if i < mid {
                        assert(<(i32, u64) as Ordered>::before(self.lines@[i], at));
                    }
                }
                lo = mid + 1;
            } else {
                assert forall|i: int| mid <= i < self.lines@.len() implies !<(
                    i32,
                    u64,
                ) as Ordered>::before(#[trigger] self.lines@[i], wanted) by {
                    if mid < i {
                        assert(<(i32, u64) as Ordered>::before(at, self.lines@[i]));
                    }
                }
                hi = mid;
            }
        }
        let found: bool = lo < self.lines.len() && self.lines[lo].same(&wanted);
        proof {
            if self.lines@.contains(wanted) {
                let i = choose|i: int| 0 <= i < self.lines@.len() && self.lines@[i] == wanted;
                assert(lo <= i);
                if lo < i {
                    assert(<(i32, u64) as Ordered>::before(self.lines@[lo as int], self.lines@[i]));
                }
            }
        }
        found
    }
}

/// The sample is not selected but accesses one of some cache lines.
pub struct Related<'a> {
    pub selected: &'a Selected<'a>,
    pub size: u64,
    pub lines: &'a LineSet,
}

impl<'a> Condition for Related<'a> {
    open spec fn holds(&self, s: C2cSample) -> bool {
        self.lines@.contains((s.pid, address::aligned(s.data_address, self.size)))
            && !self.selected.holds(s)
    }

    fn test(&self, s: &C2cSample) -> (r: bool) {
        let line: u64 = address::line_of(s.data_address, self.size);
        self.lines.has(s.pid, line) && !self.selected.test(s)
    }
}

/// Samples of one cache line.
pub struct ByLine {
    pub size: u64,
}

impl Classifier for ByLine {
    type Key = u64;

    open spec fn key(&self, s: C2cSample) -> u64 {
        address::aligned(s.data_address, self.size)
    }

    open spec fn bucket(k: u64) -> u64 {
        k
    }

    fn hash(&self, s: &C2cSample) -> (r: u64) {
        address::line_of(s.data_address, self.size)
    }

    fn same(&self, a: &C2cSample, other: &Self, b: &C2cSample) -> (r: bool) {
        address::line_of(a.data_address, self.size) == address::line_of(b.data_address, other.size)
    }
}

/// Samples of one cache line of one process.
pub struct ByProcessLine {
    pub size: u64,
}

impl Classifier for ByProcessLine {
    type Key = (i32, u64);

    open spec fn key(&self, s: C2cSample) -> (i32, u64) {
        (s.pid, address::aligned(s.data_address, self.size))
    }

    open spec fn bucket(k: (i32, u64)) -> u64 {
        k.1
    }

    fn hash(&self, s: &C2cSample) -> (r: u64) {
        address::line_of(s.data_address, self.size)
    }

    fn same(&self, a: &C2cSample, other: &Self, b: &C2cSample) -> (r: bool) {
        a.pid == b.pid && address::line_of(a.data_address, self.size) == address::line_of(
            b.data_address,
            other.size,
        )
    }
}

/// The offset of an address in its cache line.
pub open spec fn offset_in(data_address: u64, size: u64) -> u64 {
    (data_address - address::aligned(data_address, size)) as u64
}

/// The offset of an address in its cache line.
pub(crate) fn line_offset(data_address: u64, size: u64) -> (r: u64)
    ensures
        r == offset_in(data_address, size),
{
    data_address - address::line_of(data_address, size)
}

/// Samples with the same offset in their cache lines.
pub struct ByOffset {
    pub size: u64,
}

impl Classifier for ByOffset {
    type Key = u64;

    open spec fn key(&self, s: C2cSample) -> u64 {
        offset_in(s.data_address, self.size)
    }

    open spec fn bucket(k: u64) -> u64 {
        k
    }

    fn hash(&self, s: &C2cSample) -> (r: u64) {
        line_offset(s.data_address, self.size)
    }

    fn same(&self, a: &C2cSample, other: &Self, b: &C2cSample) -> (r: bool) {
        line_offset(a.data_address, self.size) == line_offset(b.data_address, other.size)
    }
}

/// Samples of one thread.
pub struct ByThread;

impl Classifier for ByThread {
    type Key = (i32, i32, Seq<char>);

    open spec fn key(&self, s: C2cSample) -> (i32, i32, Seq<char>) {
        (s.pid, s.tid, s.thread_name@)
    }

    open spec fn bucket(k: (i32, i32, Seq<char>)) -> u64 {
        k.1 as u64
    }

    fn hash(&self, s: &C2cSample) -> (r: u64) {
        s.tid as u64
    }

    fn same(&self, a: &C2cSample, other: &Self, b: &C2cSample) -> (r: bool) {
        a.pid == b.pid && a.tid == b.tid && text::text_eq(
            a.thread_name.as_str(),
            b.thread_name.as_str(),
        )
    }
}

/// Samples of one CPU.
pub struct ByCpu;

impl Classifier for ByCpu {
    type Key = u32;

    open spec fn key(&self, s: C2cSample) -> u32 {
        s.cpu
    }

    open spec fn bucket(k: u32) -> u64 {
        k as u64
    }

    fn hash(&self, s: &C2cSample) -> (r: u64) {
        s.cpu as u64
    }

    fn same(&self, a: &C2cSample, other: &Self, b: &C2cSample) -> (r: bool) {
        a.cpu == b.cpu
    }
}

/// Samples whose data came from one memory level.
pub struct ByLevel;

impl Classifier for ByLevel {
    type Key = Seq<char>;

    open spec fn key(&self, s: C2cSample) -> Seq<char> {
        s.data_source.level_text()
    }

    open spec fn bucket(k: Seq<char>) -> u64 {
        fnv::of_text(k)
    }

    fn hash(&self, s: &C2cSample) -> (r: u64) {
        fnv::hash_text(s.data_source.level())
    }

    fn same(&self, a: &C2cSample, other: &Self, b: &C2cSample) -> (r: bool) {
        text::text_eq(a.data_source.level(), b.data_source.level())
    }
}

/// Samples with one data source.
pub struct BySource;

impl Classifier for BySource {
    type Key = u64;

    open spec fn key(&self, s: C2cSample) -> u64 {
        s.data_source.raw
    }

    open spec fn bucket(k: u64) -> u64 {
        k
    }

    fn hash(&self, s: &C2cSample) -> (r: u64) {
        s.data_source.raw
    }

    fn same(&self, a: &C2cSample, other: &Self, b: &C2cSample) -> (r: bool) {
        a.data_source.raw == b.data_source.raw
    }
}

/// A recorded region, as mathematics.
#[verifier::ext_equal]
pub struct RegionFacts {
    pub path: Seq<char>,
    pub mapping_start: u64,
    pub mapping_end: u64,
    pub page_offset: u64,
    pub build_id: Option<Seq<char>>,
}

/// The recorded region of a data address, if there is one.
pub open spec fn region_of(m: Option<MappedDataAddress>) -> Option<RegionFacts> {
    match m {
        Some(m) => Some(
            RegionFacts {
                path: m.path@,
                mapping_start: m.mapping_start,
                mapping_end: m.mapping_end,
                page_offset: m.page_offset,
                build_id: types::opt_shared(m.build_id),
            },
        ),
        None => None,
    }
}

/// Samples in one recorded region.
pub struct ByRegion;

impl Classifier for ByRegion {
    type Key = Option<RegionFacts>;

    open spec fn key(&self, s: C2cSample) -> Option<RegionFacts> {
        region_of(s.mapped_data_address)
    }

    open spec fn bucket(k: Option<RegionFacts>) -> u64 {
        match k {
            Some(m) => m.mapping_start,
            None => 0,
        }
    }

    fn hash(&self, s: &C2cSample) -> (r: u64) {
        match &s.mapped_data_address {
            Some(m) => m.mapping_start,
            None => 0,
        }
    }

    fn same(&self, a: &C2cSample, other: &Self, b: &C2cSample) -> (r: bool) {
        match (&a.mapped_data_address, &b.mapped_data_address) {
            (Some(x), Some(y)) => {
                let r: bool = x.mapping_start == y.mapping_start && x.mapping_end == y.mapping_end
                    && x.page_offset == y.page_offset && text::text_eq(
                    x.path.as_str(),
                    y.path.as_str(),
                ) && types::same_opt(&x.build_id, &y.build_id);
                assert(r ==> self.key(*a)->0 =~= other.key(*b)->0);
                r
            },
            (None, None) => true,
            _ => false,
        }
    }
}

/// What an access to a cache line is told apart by.
#[verifier::ext_equal]
pub struct AccessKey {
    pub data_address: u64,
    pub pid: i32,
    pub tid: i32,
    pub cpu: u32,
    pub thread_name: Seq<char>,
    pub instruction_address: u64,
    pub exact_ip: bool,
    pub data_source: MemoryDataSource,
    pub mapped_data_address: Option<types::DataFacts>,
    pub mapped_instruction: Option<types::InstructionFacts>,
}

/// Samples of the same access to a cache line.
pub struct ByAccess;

impl Classifier for ByAccess {
    type Key = AccessKey;

    open spec fn key(&self, s: C2cSample) -> AccessKey {
        AccessKey {
            data_address: s.data_address,
            pid: s.pid,
            tid: s.tid,
            cpu: s.cpu,
            thread_name: s.thread_name@,
            instruction_address: s.instruction_address,
            exact_ip: s.exact_ip,
            data_source: s.data_source,
            mapped_data_address: types::opt_data(s.mapped_data_address),
            mapped_instruction: types::opt_instruction(s.mapped_instruction),
        }
    }

    open spec fn bucket(k: AccessKey) -> u64 {
        k.instruction_address
    }

    fn hash(&self, s: &C2cSample) -> (r: u64) {
        s.instruction_address
    }

    fn same(&self, a: &C2cSample, other: &Self, b: &C2cSample) -> (r: bool) {
        let r: bool = a.data_address == b.data_address && a.pid == b.pid && a.tid == b.tid && a.cpu
            == b.cpu && a.instruction_address == b.instruction_address && a.exact_ip == b.exact_ip
            && a.data_source == b.data_source && text::text_eq(
            a.thread_name.as_str(),
            b.thread_name.as_str(),
        ) && types::same_data(&a.mapped_data_address, &b.mapped_data_address)
            && types::same_instruction(&a.mapped_instruction, &b.mapped_instruction);
        assert(r ==> self.key(*a) =~= other.key(*b));
        r
    }
}

/// A sample passes a filter exactly where its process and its thread are those
/// asked for, its thread's name has the prefix, and its time after the first
/// sample lies within the bounds, both of them included. Where a bound is given
/// a sample without a time does not pass.
pub proof fn law_filter_selects(f: C2cFilter, first: Option<u64>, s: C2cSample)
    ensures
        passes(f, first, s) <==> {
            &&& f.pid is None || s.pid == f.pid->0
            &&& f.tid is None || s.tid == f.tid->0
            &&& *f.thread_name_prefix is None || threads::has_prefix(
                s.thread_name@,
                (*f.thread_name_prefix)->0@,
            )
            &&& (f.start_time_ms is None && f.end_time_ms is None) || (first is Some
                && s.timestamp_ns is Some && {
                let time = if s.timestamp_ns->0 < first->0 {
                    0
                } else {
                    s.timestamp_ns->0 - first->0
                };
                &&& f.start_time_ms matches Some(TimeValue::Finite(start)) ==> time >= start
                &&& f.end_time_ms matches Some(TimeValue::Finite(end)) ==> time <= end
            })
        },
{
}

/// Bounds in time are refused exactly where one is negative or not finite, or
/// the window ends before it starts.
pub proof fn law_refused_bounds(start: Option<TimeValue>, end: Option<TimeValue>)
    ensures
        filter_error(start, end) is None <==> {
            &&& start matches Some(t) ==> t matches TimeValue::Finite(a) && a >= 0
            &&& end matches Some(t) ==> t matches TimeValue::Finite(b) && b >= 0
            &&& start matches Some(TimeValue::Finite(a)) ==> end matches Some(TimeValue::Finite(b))
                ==> a <= b
        },
{
}

/// Of two windows that meet, a timed sample that passes the filter over both
/// together passes at least one of them, and one that passes either passes it.
pub proof fn law_windows_split(
    f: C2cFilter,
    g: C2cFilter,
    whole: C2cFilter,
    first: Option<u64>,
    s: C2cSample,
)
    requires
        f.pid == whole.pid,
        g.pid == whole.pid,
        f.tid == whole.tid,
        g.tid == whole.tid,
        f.thread_name_prefix == whole.thread_name_prefix,
        g.thread_name_prefix == whole.thread_name_prefix,
        f.start_time_ms == whole.start_time_ms,
        g.end_time_ms == whole.end_time_ms,
        f.end_time_ms == g.start_time_ms,
        f.end_time_ms matches Some(TimeValue::Finite(_)),
        filter_error(f.start_time_ms, f.end_time_ms) is None,
        filter_error(g.start_time_ms, g.end_time_ms) is None,
    ensures
        passes(whole, first, s) && first is Some && s.timestamp_ns is Some ==> passes(f, first, s)
            || passes(g, first, s),
        passes(f, first, s) ==> passes(whole, first, s),
        passes(g, first, s) ==> passes(whole, first, s),
{
}

}
