//! Reading a memory recording, one event after the other.
use crate::c2c::data_source::MemoryDataSource;
use crate::c2c::parse;
use crate::c2c::parse::{ParsedMemorySample, SampleError, SampleLayout};
use crate::c2c::raw_record;
use crate::c2c::raw_record::RecordLayout;
use crate::c2c::types;
use crate::c2c::types::{C2cCallchainFrame, C2cProfile, C2cSample, MappedDataAddress, MappedInstruction};
use crate::fnv;
use crate::profile::dwarf;
use crate::shared;
use crate::text;
use crate::units;
use std::collections::HashMap;
use std::sync::Arc;
use vstd::prelude::*;
use vstd::utf8::*;

verus! {

broadcast use vstd::std_specs::hash::group_hash_axioms;

/// An event of a perf recording.
#[derive(Debug, Clone, PartialEq, Eq)]
pub enum PerfEvent {
    /// A thread takes a name.
    Comm { tid: i32, name: Vec<u8> },
    /// A process or a thread starts.
    Fork { pid: i32, ppid: i32, tid: i32, ptid: i32 },
    /// A region is mapped.
    Mmap {
        pid: i32,
        address: u64,
        length: u64,
        page_offset: u64,
        executable: bool,
        path: Vec<u8>,
    },
    /// A region is mapped, with its protection and perhaps its build id.
    Mmap2 {
        pid: i32,
        address: u64,
        length: u64,
        page_offset: u64,
        protection: u32,
        build_id: Option<Vec<u8>>,
        path: Vec<u8>,
    },
    /// A sample is taken.
    Sample { layout: SampleLayout, exact_ip: bool, body: Vec<u8> },
    /// Anything else.
    Other,
}

/// An event of a perf recording, as mathematics.
#[verifier::ext_equal]
pub enum EventFacts {
    Comm { tid: i32, name: Seq<u8> },
    Fork { pid: i32, ppid: i32, tid: i32, ptid: i32 },
    Mmap {
        pid: i32,
        address: u64,
        length: u64,
        page_offset: u64,
        executable: bool,
        path: Seq<u8>,
    },
    Mmap2 {
        pid: i32,
        address: u64,
        length: u64,
        page_offset: u64,
        protection: u32,
        build_id: Option<Seq<u8>>,
        path: Seq<u8>,
    },
    Sample { layout: SampleLayout, exact_ip: bool, body: Seq<u8> },
    Other,
}

impl PerfEvent {
    /// What the event tells.
    pub open spec fn facts(self) -> EventFacts {
        match self {
            PerfEvent::Comm { tid, name } => EventFacts::Comm { tid, name: name@ },
            PerfEvent::Fork { pid, ppid, tid, ptid } => EventFacts::Fork { pid, ppid, tid, ptid },
            PerfEvent::Mmap { pid, address, length, page_offset, executable, path } => {
                EventFacts::Mmap { pid, address, length, page_offset, executable, path: path@ }
            },
            PerfEvent::Mmap2 {
                pid,
                address,
                length,
                page_offset,
                protection,
                build_id,
                path,
            } => EventFacts::Mmap2 {
                pid,
                address,
                length,
                page_offset,
                protection,
                build_id: raw_record::opt_bytes(build_id),
                path: path@,
            },
            PerfEvent::Sample { layout, exact_ip, body } => EventFacts::Sample {
                layout,
                exact_ip,
                body: body@,
            },
            PerfEvent::Other => EventFacts::Other,
        }
    }
}

/// Why a record cannot be taken.
#[derive(Debug, Clone, PartialEq, Eq)]
pub enum RecordError {
    /// The record cannot be parsed.
    Unparseable(String),
    /// The record holds a sample that cannot be read.
    Sample(SampleError),
}

/// The protection bit of executable regions.
pub const PROT_EXEC: u32 = 0x4;

/// A mapped region.
#[derive(Debug)]
pub struct Mapping {
    pub start: u64,
    pub end: u64,
    pub page_offset: u64,
    pub path: Arc<String>,
    pub build_id: Option<Arc<String>>,
}

/// A mapped region, as mathematics.
#[verifier::ext_equal]
pub struct MappingFacts {
    pub start: u64,
    pub end: u64,
    pub page_offset: u64,
    pub path: Seq<char>,
    pub build_id: Option<Seq<char>>,
}

impl Mapping {
    /// What the region is.
    pub open spec fn facts(self) -> MappingFacts {
        MappingFacts {
            start: self.start,
            end: self.end,
            page_offset: self.page_offset,
            path: self.path@,
            build_id: types::opt_shared(self.build_id),
        }
    }

    fn share(&self) -> (r: Mapping)
        ensures
            r == *self,
    {
        Mapping {
            start: self.start,
            end: self.end,
            page_offset: self.page_offset,
            path: shared::share(&self.path),
            build_id: types::share_opt(&self.build_id),
        }
    }
}

/// What regions are.
pub open spec fn regions(s: Seq<Mapping>) -> Seq<MappingFacts> {
    Seq::new(s.len(), |i: int| s[i].facts())
}

/// Whether regions stand in the order of their starts, no two with the same.
pub open spec fn starts_rise(table: Seq<MappingFacts>) -> bool {
    forall|i: int, j: int|
        #![trigger table[i], table[j]]
        0 <= i < j < table.len() ==> table[i].start < table[j].start
}

/// The regions after one more, which takes the place of one with the same start.
pub open spec fn placed(table: Seq<MappingFacts>, m: MappingFacts) -> Seq<MappingFacts>
    decreases table.len(),
{
    if table.len() == 0 {
        seq![m]
    } else if table.last().start < m.start {
        table.push(m)
    } else if table.last().start == m.start {
        table.drop_last().push(m)
    } else {
        placed(table.drop_last(), m).push(table.last())
    }
}

/// The region that starts last at or before an address, if it holds it.
pub open spec fn covering(table: Seq<MappingFacts>, address: u64) -> Option<MappingFacts>
    decreases table.len(),
{
    if table.len() == 0 {
        None
    } else if table.last().start <= address {
        if address < table.last().end {
            Some(table.last())
        } else {
            None
        }
    } else {
        covering(table.drop_last(), address)
    }
}

/// Placing keeps the order, and starts no later than the last of both.
proof fn lemma_placed(table: Seq<MappingFacts>, m: MappingFacts)
    requires
        starts_rise(table),
    ensures
        starts_rise(placed(table, m)),
        forall|i: int|
            0 <= i < placed(table, m).len() ==> (#[trigger] placed(table, m)[i]).start <= (
            if table.len() > 0 && table.last().start > m.start {
                table.last().start
            } else {
                m.start
            }),
    decreases table.len(),
{
    if table.len() > 0 && table.last().start >= m.start {
        let rest = table.drop_last();
        assert forall|i: int, j: int|
            #![trigger rest[i], rest[j]]
            0 <= i < j < rest.len() implies rest[i].start < rest[j].start by {
            assert(rest[i] == table[i] && rest[j] == table[j]);
        }
        assert forall|i: int| 0 <= i < rest.len() implies (#[trigger] rest[i]).start
            < table.last().start by {
            assert(table[i].start < table[table.len() - 1].start);
        }
        if table.last().start > m.start {
            lemma_placed(rest, m);
        }
    } else if table.len() > 0 {
        assert forall|i: int| 0 <= i < table.len() implies (#[trigger] table[i]).start
            < m.start by {
            if i < table.len() - 1 {
                assert(table[i].start < table[table.len() - 1].start);
            }
        }
    }
}

/// A region that was just recorded is found at its start, whatever stood there.
pub proof fn law_latest_region_is_found(table: Seq<MappingFacts>, m: MappingFacts)
    requires
        starts_rise(table),
        m.start < m.end,
    ensures
        covering(placed(table, m), m.start) == Some(m),
    decreases table.len(),
{
    if table.len() > 0 {
        let rest = table.drop_last();
        if table.last().start > m.start {
            assert forall|i: int, j: int|
                #![trigger rest[i], rest[j]]
                0 <= i < j < rest.len() implies rest[i].start < rest[j].start by {
                assert(rest[i] == table[i] && rest[j] == table[j]);
            }
            law_latest_region_is_found(rest, m);
            assert(placed(table, m).drop_last() =~= placed(rest, m));
        }
    }
}

/// The regions before a position, one more, and those from another position on.
spec fn spliced(table: Seq<MappingFacts>, p: int, m: MappingFacts, q: int) -> Seq<MappingFacts> {
    table.take(p).push(m) + table.skip(q)
}

/// Where a region belongs in a table, and whether it takes another's place.
fn find_place(table: &Vec<Mapping>, m: &Mapping) -> (r: (usize, bool))
    ensures
        r.0 <= table@.len(),
        r.1 ==> r.0 < table@.len(),
        placed(regions(table@), m.facts()) == spliced(
            regions(table@),
            r.0 as int,
            m.facts(),
            if r.1 {
                r.0 + 1
            } else {
                r.0 as int
            },
        ),
{
    let ghost all = regions(table@);
    let mut p: usize = table.len();
    proof {
        assert(all.take(p as int) =~= all);
        assert(placed(all, m.facts()) =~= placed(all.take(p as int), m.facts()) + all.skip(
            p as int,
        ));
    }
    while p > 0
        invariant
            p <= table@.len(),
            all == regions(table@),
            placed(all, m.facts()) == placed(all.take(p as int), m.facts()) + all.skip(p as int),
        decreases p,
    {
        let ghost head = all.take(p as int);
        assert(head.last() == table@[p - 1].facts());
        assert(head.drop_last() =~= all.take(p - 1));
        if table[p - 1].start < m.start {
            return (p, false);
        }
        if table[p - 1].start == m.start {
            return (p - 1, true);
        }
        proof {
            assert(placed(all, m.facts()) =~= placed(all.take(p - 1), m.facts()) + all.skip(p - 1));
        }
        p -= 1;
    }
    assert(all.take(0).push(m.facts()) =~= seq![m.facts()]);
    (0, false)
}

/// Records a region in a table.
fn place(table: &mut Vec<Mapping>, m: Mapping)
    requires
        starts_rise(regions(old(table)@)),
    ensures
        regions(final(table)@) == placed(regions(old(table)@), m.facts()),
        starts_rise(regions(final(table)@)),
{
    let ghost all = regions(table@);
    proof {
        lemma_placed(all, m.facts());
    }
    let (p, replaces) = find_place(table, &m);
    if replaces {
        table.set(p, m);
        assert(regions(table@) =~= spliced(all, p as int, m.facts(), p + 1));
    } else {
        table.insert(p, m);
        assert(regions(table@) =~= spliced(all, p as int, m.facts(), p as int));
    }
}

/// A table keeps its answer if only regions beyond the address are cut off.
proof fn lemma_covering_prefix(table: Seq<MappingFacts>, address: u64, n: int)
    requires
        0 <= n <= table.len(),
        forall|i: int| n <= i < table.len() ==> (#[trigger] table[i]).start > address,
    ensures
        covering(table, address) == covering(table.take(n), address),
    decreases table.len(),
{
    if n < table.len() {
        let rest = table.drop_last();
        assert(table[table.len() - 1].start > address);
        assert forall|i: int| n <= i < rest.len() implies (#[trigger] rest[i]).start > address by {
            assert(rest[i] == table[i]);
        }
        lemma_covering_prefix(rest, address, n);
        assert(rest.take(n) =~= table.take(n));
    } else {
        assert(table.take(n) =~= table);
    }
}

/// What a found region is.
spec fn found(m: Option<&Mapping>) -> Option<MappingFacts> {
    match m {
        Some(m) => Some(m.facts()),
        None => None,
    }
}

/// The region of a table that holds an address.
fn find_region(table: &Vec<Mapping>, address: u64) -> (r: Option<&Mapping>)
    requires
        starts_rise(regions(table@)),
    ensures
        found(r) == covering(regions(table@), address),
        r matches Some(m) ==> m.start <= address,
{
    let ghost all = regions(table@);
    let mut lo: usize = 0;
    let mut hi: usize = table.len();
    while lo < hi
        invariant
            lo <= hi <= table@.len(),
            all == regions(table@),
            starts_rise(all),
            forall|i: int| 0 <= i < lo ==> (#[trigger] all[i]).start <= address,
            forall|i: int| hi <= i < all.len() ==> (#[trigger] all[i]).start > address,
        decreases hi - lo,
    {
        let mid: usize = lo + (hi - lo) / 2;
        assert(all[mid as int] == table@[mid as int].facts());
        if table[mid].start <= address {
            assert forall|i: int| 0 <= i < mid + 1 implies (#[trigger] all[i]).start <= address by {
                if i < mid {
                    assert(all[i].start < all[mid as int].start);
                }
            }
            lo = mid + 1;
        } else {
            assert forall|i: int| mid <= i < all.len() implies (#[trigger] all[i]).start
                > address by {
                if mid < i {
                    assert(all[mid as int].start < all[i].start);
                }
            }
            hi = mid;
        }
    }
    proof {
        lemma_covering_prefix(all, address, lo as int);
    }
    if lo == 0 {
        assert(all.take(0) =~= Seq::<MappingFacts>::empty());
        return None;
    }
    assert(all.take(lo as int).last() == table@[lo - 1].facts());
    assert(all[lo - 1].start <= address);
    if address < table[lo - 1].end {
        Some(&table[lo - 1])
    } else {
        None
    }
}

/// Copies a table.
fn copy_table(table: &Vec<Mapping>) -> (r: Vec<Mapping>)
    ensures
        r@ == table@,
{
    let mut copy: Vec<Mapping> = Vec::new();
    let mut i: usize = 0;
    while i < table.len()
        invariant
            i <= table@.len(),
            copy@ == table@.take(i as int),
        decreases table@.len() - i,
    {
        copy.push(table[i].share());
        assert(copy@ =~= table@.take(i + 1));
        i += 1;
    }
    assert(table@.take(table@.len() as int) =~= table@);
    copy
}

/// What `String::from_utf8_lossy` makes of bytes.
pub uninterp spec fn lossy_text(bytes: Seq<u8>) -> Seq<char>;

/// `String::from_utf8_lossy`: the text that bytes hold. Valid UTF-8 is decoded;
/// what other bytes become has a name only.
#[verifier::external_body]
fn decode_lossy(bytes: &[u8]) -> (r: String)
    ensures
        r@ == lossy_text(bytes@),
        valid_utf8(bytes@) ==> r@ == decode_utf8(bytes@),
{
    String::from_utf8_lossy(bytes).into_owned()
}

/// What a recording has told so far.
#[verifier::ext_equal]
pub struct RecorderFacts {
    pub names: Map<i32, Seq<char>>,
    pub code: Map<i32, Seq<MappingFacts>>,
    pub data: Map<i32, Seq<MappingFacts>>,
    pub samples: Seq<types::AccessFacts>,
    pub first_timestamp_ns: Option<u64>,
    pub last_timestamp_ns: Option<u64>,
    pub samples_with_callchains: usize,
    pub skipped_samples: usize,
    pub missing_data_address_samples: usize,
    pub missing_physical_address_samples: usize,
}

/// The regions of a process, if any is known.
pub open spec fn regions_in(tables: Map<i32, Seq<MappingFacts>>, pid: i32) -> Seq<MappingFacts> {
    if tables.contains_key(pid) {
        tables[pid]
    } else {
        Seq::empty()
    }
}

/// The region of a process, or else of the kernel, that holds an address.
pub open spec fn region_at(
    tables: Map<i32, Seq<MappingFacts>>,
    pid: i32,
    address: u64,
) -> Option<MappingFacts> {
    match covering(regions_in(tables, pid), address) {
        Some(m) => Some(m),
        None => covering(regions_in(tables, (-1) as i32), address),
    }
}

/// An instruction's place in the file that is mapped there.
pub open spec fn instruction_at(
    tables: Map<i32, Seq<MappingFacts>>,
    pid: i32,
    address: u64,
) -> Option<types::InstructionFacts> {
    match region_at(tables, pid, address) {
        Some(m) => if address - m.start + m.page_offset > u64::MAX {
            None
        } else {
            Some(
                types::InstructionFacts {
                    path: m.path,
                    relative_address: (address - m.start + m.page_offset) as u64,
                    build_id: m.build_id,
                },
            )
        },
        None => None,
    }
}

/// The recorded region of a data address.
pub open spec fn data_at(
    tables: Map<i32, Seq<MappingFacts>>,
    pid: i32,
    address: u64,
) -> Option<types::DataFacts> {
    match region_at(tables, pid, address) {
        Some(m) => if address - m.start + m.page_offset > u64::MAX {
            None
        } else {
            Some(
                types::DataFacts {
                    path: m.path,
                    mapping_start: m.start,
                    mapping_end: m.end,
                    page_offset: m.page_offset,
                    mapping_offset: (address - m.start) as u64,
                    file_offset: (address - m.start + m.page_offset) as u64,
                    build_id: m.build_id,
                },
            )
        },
        None => None,
    }
}

/// The callers that a recorded callchain names: its addresses without zeros
/// and context markers.
pub open spec fn callers_in(
    code: Map<i32, Seq<MappingFacts>>,
    pid: i32,
    chain: Seq<u64>,
) -> Seq<types::CallerFacts>
    decreases chain.len(),
{
    if chain.len() == 0 {
        Seq::empty()
    } else {
        let before = callers_in(code, pid, chain.drop_last());
        let address = chain.last();
        if address != 0 && !parse::context_marker(address) {
            before.push(
                types::CallerFacts {
                    instruction_address: address,
                    mapped: instruction_at(code, pid, address),
                },
            )
        } else {
            before
        }
    }
}

/// An address, unless it is zero.
pub open spec fn nonzero(address: Option<u64>) -> Option<u64> {
    match address {
        Some(a) => if a != 0 {
            Some(a)
        } else {
            None
        },
        None => None,
    }
}

/// The earlier of a time and one more.
pub open spec fn earlier(old: Option<u64>, time: Option<u64>) -> Option<u64> {
    match (old, time) {
        (Some(a), Some(b)) => Some(
            if a <= b {
                a
            } else {
                b
            },
        ),
        (None, b) => b,
        (a, None) => a,
    }
}

/// The later of a time and one more.
pub open spec fn later(old: Option<u64>, time: Option<u64>) -> Option<u64> {
    match (old, time) {
        (Some(a), Some(b)) => Some(
            if a >= b {
                a
            } else {
                b
            },
        ),
        (None, b) => b,
        (a, None) => a,
    }
}

/// A number, or another where there is none.
pub open spec fn or_else<T>(n: Option<T>, default: T) -> T {
    match n {
        Some(n) => n,
        None => default,
    }
}

/// A region that ends at the largest address where it would reach beyond.
pub open spec fn region(
    address: u64,
    length: u64,
    page_offset: u64,
    path: Seq<u8>,
    build_id: Option<Seq<u8>>,
) -> MappingFacts {
    MappingFacts {
        start: address,
        end: units::capped(address + length),
        page_offset,
        path: lossy_text(path),
        build_id: match build_id {
            Some(bytes) => Some(dwarf::hex_of(bytes)),
            None => None,
        },
    }
}

/// The tables after one more region of a process.
pub open spec fn with_region(
    tables: Map<i32, Seq<MappingFacts>>,
    pid: i32,
    m: MappingFacts,
) -> Map<i32, Seq<MappingFacts>> {
    tables.insert(pid, placed(regions_in(tables, pid), m))
}

/// The tables after a process started, which inherits its parent's regions.
pub open spec fn inherited(
    tables: Map<i32, Seq<MappingFacts>>,
    pid: i32,
    ppid: i32,
) -> Map<i32, Seq<MappingFacts>> {
    if pid != ppid && tables.contains_key(ppid) {
        tables.insert(pid, tables[ppid])
    } else {
        tables
    }
}

/// The name of a thread.
pub open spec fn name_of(names: Map<i32, Seq<char>>, tid: i32) -> Seq<char> {
    if names.contains_key(tid) {
        names[tid]
    } else {
        "<unknown>"@
    }
}

/// The access that a sample with a data address records.
pub open spec fn access_of(
    facts: RecorderFacts,
    sample: parse::SampleFacts,
    exact_ip: bool,
    data_address: u64,
) -> types::AccessFacts {
    let pid = or_else(sample.pid, 0);
    let tid = or_else(sample.tid, 0);
    let ip = or_else(sample.instruction_address, 0);
    types::AccessFacts {
        timestamp_ns: sample.timestamp_ns,
        pid,
        tid,
        cpu: or_else(sample.cpu, 0),
        thread_name: name_of(facts.names, tid),
        instruction_address: ip,
        exact_ip,
        data_address,
        mapped_data_address: data_at(facts.data, pid, data_address),
        physical_address: nonzero(sample.physical_address),
        weight: or_else(sample.weight, 1),
        instruction_latency: sample.instruction_latency,
        data_source: MemoryDataSource { raw: sample.data_source },
        mapped_instruction: instruction_at(facts.code, pid, ip),
        callchain: callers_in(facts.code, pid, sample.callchain),
    }
}

/// What a recording has told after a memory sample.
pub open spec fn with_sample(
    facts: RecorderFacts,
    sample: parse::SampleFacts,
    exact_ip: bool,
) -> RecorderFacts {
    match nonzero(sample.data_address) {
        None => RecorderFacts {
            missing_data_address_samples: types::bumped(facts.missing_data_address_samples, true),
            ..facts
        },
        Some(data_address) => {
            let access = access_of(facts, sample, exact_ip, data_address);
            RecorderFacts {
                samples: facts.samples.push(access),
                first_timestamp_ns: earlier(facts.first_timestamp_ns, sample.timestamp_ns),
                last_timestamp_ns: later(facts.last_timestamp_ns, sample.timestamp_ns),
                samples_with_callchains: types::bumped(
                    facts.samples_with_callchains,
                    access.callchain.len() != 0,
                ),
                missing_physical_address_samples: types::bumped(
                    facts.missing_physical_address_samples,
                    access.physical_address is None,
                ),
                ..facts
            }
        },
    }
}

/// What a recording has told after one more event, or why the event cannot be read.
pub open spec fn after_event(facts: RecorderFacts, event: PerfEvent) -> Result<
    RecorderFacts,
    SampleError,
> {
    after_facts(facts, event.facts())
}

/// What a recording has told after what one more event tells, or why it cannot
/// be read.
pub open spec fn after_facts(facts: RecorderFacts, event: EventFacts) -> Result<
    RecorderFacts,
    SampleError,
> {
    match event {
        EventFacts::Comm { tid, name } => Ok(
            RecorderFacts { names: facts.names.insert(tid, lossy_text(name)), ..facts },
        ),
        EventFacts::Fork { pid, ppid, tid, ptid } => Ok(
            RecorderFacts {
                code: inherited(facts.code, pid, ppid),
                data: inherited(facts.data, pid, ppid),
                names: if facts.names.contains_key(ptid) {
                    facts.names.insert(tid, facts.names[ptid])
                } else {
                    facts.names
                },
                ..facts
            },
        ),
        EventFacts::Mmap { pid, address, length, page_offset, executable, path } => {
            let m = region(address, length, page_offset, path, None);
            Ok(
                RecorderFacts {
                    code: if executable {
                        with_region(facts.code, pid, m)
                    } else {
                        facts.code
                    },
                    data: with_region(facts.data, pid, m),
                    ..facts
                },
            )
        },
        EventFacts::Mmap2 { pid, address, length, page_offset, protection, build_id, path } => {
            let m = region(address, length, page_offset, path, build_id);
            Ok(
                RecorderFacts {
                    code: if protection & PROT_EXEC != 0 {
                        with_region(facts.code, pid, m)
                    } else {
                        facts.code
                    },
                    data: with_region(facts.data, pid, m),
                    ..facts
                },
            )
        },
        EventFacts::Sample { layout, exact_ip, body } => {
            if !parse::announces(layout.sample_format, parse::FORMAT_DATA_SRC) {
                Ok(
                    RecorderFacts {
                        skipped_samples: types::bumped(facts.skipped_samples, true),
                        ..facts
                    },
                )
            } else {
                match parse::sample_in(body, layout) {
                    Ok(sample) => Ok(with_sample(facts, sample, exact_ip)),
                    Err(e) => Err(e),
                }
            }
        },
        EventFacts::Other => Ok(facts),
    }
}

/// Texts and callchains that were seen before are held once.
struct Shelf {
    texts: HashMap<u64, Arc<String>>,
    chains: HashMap<u64, Arc<Vec<C2cCallchainFrame>>>,
}

impl Shelf {
    /// A shared text, the one on the shelf where it is the same.
    fn intern(&mut self, value: String) -> (r: Arc<String>)
        ensures
            r@ == value@,
    {
        let hash: u64 = fnv::hash_text(value.as_str());
        match self.texts.get(&hash) {
            Some(known) => {
                if text::text_eq(known.as_str(), value.as_str()) {
                    return shared::share(known);
                }
            },
            None => {},
        }
        let text = Arc::new(value);
        self.texts.insert(hash, shared::share(&text));
        text
    }

    /// A shared callchain, the one on the shelf where it is the same.
    fn intern_callchain(&mut self, frames: Vec<C2cCallchainFrame>) -> (r: Arc<
        Vec<C2cCallchainFrame>,
    >)
        ensures
            types::callers(r@) == types::callers(frames@),
            r@.len() == frames@.len(),
    {
        let mut hash: u64 = fnv::FNV_OFFSET;
        let mut i: usize = 0;
        while i < frames.len()
            decreases frames@.len() - i,
        {
            hash = (hash ^ frames[i].instruction_address).wrapping_mul(fnv::FNV_PRIME);
            i += 1;
        }
        match self.chains.get(&hash) {
            Some(known) => {
                if types::same_callers(known, &frames) {
                    assert(types::callers(known@).len() == types::callers(frames@).len());
                    return shared::share(known);
                }
            },
            None => {},
        }
        let chain = Arc::new(frames);
        self.chains.insert(hash, shared::share(&chain));
        chain
    }
}

/// A recording as far as it has been read.
pub struct C2cRecorder {
    names: HashMap<i32, Arc<String>>,
    code: HashMap<i32, Vec<Mapping>>,
    data: HashMap<i32, Vec<Mapping>>,
    shelf: Shelf,
    samples: Vec<C2cSample>,
    first_timestamp_ns: Option<u64>,
    last_timestamp_ns: Option<u64>,
    samples_with_callchains: usize,
    skipped_samples: usize,
    missing_data_address_samples: usize,
    missing_physical_address_samples: usize,
}

/// What tables hold.
spec fn tables_of(tables: Map<i32, Vec<Mapping>>) -> Map<i32, Seq<MappingFacts>> {
    tables.map_values(|t: Vec<Mapping>| regions(t@))
}

/// Whether the regions of every process stand in the order of their starts.
spec fn tables_rise(tables: Map<i32, Vec<Mapping>>) -> bool {
    forall|pid: i32| #[trigger]
        tables.contains_key(pid) ==> starts_rise(regions(tables[pid]@))
}

/// The region of a process, or else of the kernel, that holds an address.
fn find_mapping(tables: &HashMap<i32, Vec<Mapping>>, pid: i32, address: u64) -> (r: Option<&Mapping>)
    requires
        tables_rise(tables@),
    ensures
        found(r) == region_at(tables_of(tables@), pid, address),
        r matches Some(m) ==> m.start <= address,
{
    match tables.get(&pid) {
        Some(table) => {
            let own = find_region(table, address);
            if own.is_some() {
                return own;
            }
        },
        None => {
            assert(covering(Seq::<MappingFacts>::empty(), address) is None);
        },
    }
    let kernel: i32 = -1;
    match tables.get(&kernel) {
        Some(table) => find_region(table, address),
        None => None,
    }
}

/// An instruction's place in the file that is mapped there.
fn resolve_instruction(tables: &HashMap<i32, Vec<Mapping>>, pid: i32, address: u64) -> (r: Option<
    MappedInstruction,
>)
    requires
        tables_rise(tables@),
    ensures
        types::opt_instruction(r) == instruction_at(tables_of(tables@), pid, address),
{
    match find_mapping(tables, pid, address) {
        Some(m) => {
            let offset: u64 = address - m.start;
            match offset.checked_add(m.page_offset) {
                Some(relative_address) => Some(
                    MappedInstruction {
                        path: shared::share(&m.path),
                        relative_address,
                        build_id: types::share_opt(&m.build_id),
                    },
                ),
                None => None,
            }
        },
        None => None,
    }
}

/// The recorded region of a data address.
fn resolve_data(tables: &HashMap<i32, Vec<Mapping>>, pid: i32, address: u64) -> (r: Option<
    MappedDataAddress,
>)
    requires
        tables_rise(tables@),
    ensures
        types::opt_data(r) == data_at(tables_of(tables@), pid, address),
{
    match find_mapping(tables, pid, address) {
        Some(m) => {
            let mapping_offset: u64 = address - m.start;
            match mapping_offset.checked_add(m.page_offset) {
                Some(file_offset) => Some(
                    MappedDataAddress {
                        path: shared::share(&m.path),
                        mapping_start: m.start,
                        mapping_end: m.end,
                        page_offset: m.page_offset,
                        mapping_offset,
                        file_offset,
                        build_id: types::share_opt(&m.build_id),
                    },
                ),
                None => None,
            }
        },
        None => None,
    }
}

/// Records a region of a process.
fn add_mapping(tables: &mut HashMap<i32, Vec<Mapping>>, pid: i32, m: Mapping)
    requires
        tables_rise(old(tables)@),
    ensures
        tables_rise(final(tables)@),
        tables_of(final(tables)@) == with_region(tables_of(old(tables)@), pid, m.facts()),
{
    let ghost before = tables@;
    let mut table: Vec<Mapping> = match tables.remove(&pid) {
        Some(table) => table,
        None => {
            let table: Vec<Mapping> = Vec::new();
            assert(regions(table@) =~= Seq::<MappingFacts>::empty());
            table
        },
    };
    assert(regions(table@) == regions_in(tables_of(before), pid));
    place(&mut table, m);
    tables.insert(pid, table);
    assert(tables_of(tables@) =~= with_region(tables_of(before), pid, m.facts()));
}

/// Lets a process inherit its parent's regions.
fn inherit(tables: &mut HashMap<i32, Vec<Mapping>>, pid: i32, ppid: i32)
    requires
        tables_rise(old(tables)@),
    ensures
        tables_rise(final(tables)@),
        tables_of(final(tables)@) == inherited(tables_of(old(tables)@), pid, ppid),
{
    let ghost before = tables@;
    if pid == ppid {
        return;
    }
    let copy: Vec<Mapping> = match tables.get(&ppid) {
        Some(table) => copy_table(table),
        None => {
            return;
        },
    };
    tables.insert(pid, copy);
    assert(tables_of(tables@) =~= inherited(tables_of(before), pid, ppid));
}

/// An address, unless it is zero.
fn skip_zero(address: Option<u64>) -> (r: Option<u64>)
    ensures
        r == nonzero(address),
{
    match address {
        Some(a) => if a != 0 {
            Some(a)
        } else {
            None
        },
        None => None,
    }
}

/// A count after one more.
fn one_more(count: usize) -> (r: usize)
    ensures
        r == types::bumped(count, true),
{
    units::capped_count_add(count, 1)
}

impl C2cRecorder {
    /// What the recording has told so far.
    pub closed spec fn facts(&self) -> RecorderFacts {
        RecorderFacts {
            names: self.names@.map_values(|s: Arc<String>| s@),
            code: tables_of(self.code@),
            data: tables_of(self.data@),
            samples: types::accesses(self.samples@),
            first_timestamp_ns: self.first_timestamp_ns,
            last_timestamp_ns: self.last_timestamp_ns,
            samples_with_callchains: self.samples_with_callchains,
            skipped_samples: self.skipped_samples,
            missing_data_address_samples: self.missing_data_address_samples,
            missing_physical_address_samples: self.missing_physical_address_samples,
        }
    }

    /// The regions of every process stand in the order of their starts.
    pub closed spec fn well_formed(&self) -> bool {
        tables_rise(self.code@) && tables_rise(self.data@)
    }

    /// A recording of which nothing has been read.
    pub fn new() -> (r: Self)
        ensures
            r.well_formed(),
            r.facts() == nothing_recorded(),
    {
        let r = C2cRecorder {
            names: HashMap::new(),
            code: HashMap::new(),
            data: HashMap::new(),
            shelf: Shelf { texts: HashMap::new(), chains: HashMap::new() },
            samples: Vec::new(),
            first_timestamp_ns: None,
            last_timestamp_ns: None,
            samples_with_callchains: 0,
            skipped_samples: 0,
            missing_data_address_samples: 0,
            missing_physical_address_samples: 0,
        };
        assert(r.facts() =~= nothing_recorded());
        r
    }

    /// Records the regions that an event maps.
    fn map_region(
        &mut self,
        pid: i32,
        address: u64,
        length: u64,
        page_offset: u64,
        executable: bool,
        path: &Vec<u8>,
        build_id: &Option<Vec<u8>>,
    )
        requires
            old(self).well_formed(),
        ensures
            final(self).well_formed(),
            final(self).facts() == {
                let m = region(address, length, page_offset, path@, raw_record::opt_bytes(*build_id));
                RecorderFacts {
                    code: if executable {
                        with_region(old(self).facts().code, pid, m)
                    } else {
                        old(self).facts().code
                    },
                    data: with_region(old(self).facts().data, pid, m),
                    ..old(self).facts()
                }
            },
    {
        let path = self.shelf.intern(decode_lossy(path.as_slice()));
        let build_id: Option<Arc<String>> = match build_id {
            Some(bytes) => Some(self.shelf.intern(dwarf::hex_bytes(bytes.as_slice()))),
            None => None,
        };
        let m = Mapping {
            start: address,
            end: units::capped_add(address, length),
            page_offset,
            path,
            build_id,
        };
        if executable {
            add_mapping(&mut self.code, pid, m.share());
        }
        add_mapping(&mut self.data, pid, m);
    }

    /// The callers that a recorded callchain names.
    fn resolve_callchain(&self, pid: i32, chain: &Vec<u64>) -> (r: Vec<C2cCallchainFrame>)
        requires
            self.well_formed(),
        ensures
            types::callers(r@) == callers_in(self.facts().code, pid, chain@),
    {
        let mut frames: Vec<C2cCallchainFrame> = Vec::new();
        let mut i: usize = 0;
        assert(types::callers(frames@) =~= Seq::empty());
        while i < chain.len()
            invariant
                i <= chain@.len(),
                self.well_formed(),
                types::callers(frames@) == callers_in(
                    self.facts().code,
                    pid,
                    chain@.take(i as int),
                ),
            decreases chain@.len() - i,
        {
            let ghost before = frames@;
            let address: u64 = chain[i];
            proof {
                assert(chain@.take(i + 1).drop_last() =~= chain@.take(i as int));
                assert(chain@.take(i + 1).last() == address);
            }
            if address != 0 && !parse::is_callchain_context(address) {
                let mapped_instruction = resolve_instruction(&self.code, pid, address);
                let frame = C2cCallchainFrame { instruction_address: address, mapped_instruction };
                frames.push(frame);
                assert(types::callers(frames@) =~= types::callers(before).push(frame.facts()));
            }
            i += 1;
        }
        assert(chain@.take(chain@.len() as int) =~= chain@);
        frames
    }

    /// Records a memory sample.
    fn record_sample(&mut self, sample: ParsedMemorySample, exact_ip: bool)
        requires
            old(self).well_formed(),
        ensures
            final(self).well_formed(),
            final(self).facts() == with_sample(old(self).facts(), sample.facts(), exact_ip),
    {
        let ghost before = self.facts();
        let data_address: u64 = match skip_zero(sample.data_address) {
            Some(address) => address,
            None => {
                self.missing_data_address_samples = one_more(self.missing_data_address_samples);
                return;
            },
        };
        let physical_address = skip_zero(sample.physical_address);
        let pid: i32 = sample.pid.unwrap_or(0);
        let tid: i32 = sample.tid.unwrap_or(0);
        let thread_name: Arc<String> = match self.names.get(&tid) {
            Some(name) => shared::share(name),
            None => self.shelf.intern("<unknown>".to_string()),
        };
        let instruction_address: u64 = sample.instruction_address.unwrap_or(0);
        let frames = self.resolve_callchain(pid, &sample.callchain);
        let callchain = self.shelf.intern_callchain(frames);
        let access = C2cSample {
            timestamp_ns: sample.timestamp_ns,
            pid,
            tid,
            cpu: sample.cpu.unwrap_or(0),
            thread_name,
            instruction_address,
            exact_ip,
            data_address,
            mapped_data_address: resolve_data(&self.data, pid, data_address),
            physical_address,
            weight: sample.weight.unwrap_or(1),
            instruction_latency: sample.instruction_latency,
            data_source: MemoryDataSource { raw: sample.data_source },
            mapped_instruction: resolve_instruction(&self.code, pid, instruction_address),
            callchain,
        };
        if physical_address.is_none() {
            self.missing_physical_address_samples = one_more(self.missing_physical_address_samples);
        }
        if let Some(timestamp) = sample.timestamp_ns {
            self.first_timestamp_ns = match self.first_timestamp_ns {
                Some(old_time) => if old_time <= timestamp {
                    Some(old_time)
                } else {
                    Some(timestamp)
                },
                None => Some(timestamp),
            };
            self.last_timestamp_ns = match self.last_timestamp_ns {
                Some(old_time) => if old_time >= timestamp {
                    Some(old_time)
                } else {
                    Some(timestamp)
                },
                None => Some(timestamp),
            };
        }
        if access.callchain.len() != 0 {
            self.samples_with_callchains = one_more(self.samples_with_callchains);
        }
        let ghost told = self.samples@;
        assert(access.facts() =~= access_of(before, sample.facts(), exact_ip, data_address));
        assert(types::callers(access.callchain@).len() == access.callchain@.len());
        self.samples.push(access);
        proof {
            assert(types::accesses(self.samples@) =~= types::accesses(told).push(access.facts()));
            assert(self.facts() =~= with_sample(before, sample.facts(), exact_ip));
        }
    }

    /// Reads one more event.
    pub fn step(&mut self, event: &PerfEvent) -> (r: Result<(), SampleError>)
        requires
            old(self).well_formed(),
        ensures
            final(self).well_formed(),
            match r {
                Ok(_) => after_event(old(self).facts(), *event) == Ok::<RecorderFacts, SampleError>(
                    final(self).facts(),
                ),
                Err(e) => after_event(old(self).facts(), *event) == Err::<
                    RecorderFacts,
                    SampleError,
                >(e) && final(self).facts() == old(self).facts(),
            },
    {
        let ghost before = self.facts();
        match event {
            PerfEvent::Comm { tid, name } => {
                let name = self.shelf.intern(decode_lossy(name.as_slice()));
                self.names.insert(*tid, name);
                assert(self.facts().names =~= before.names.insert(*tid, name@));
                Ok(())
            },
            PerfEvent::Fork { pid, ppid, tid, ptid } => {
                inherit(&mut self.code, *pid, *ppid);
                inherit(&mut self.data, *pid, *ppid);
                let name: Option<Arc<String>> = match self.names.get(ptid) {
                    Some(name) => Some(shared::share(name)),
                    None => None,
                };
                match name {
                    Some(name) => {
                        self.names.insert(*tid, name);
                        assert(self.facts().names =~= before.names.insert(*tid, name@));
                    },
                    None => {},
                }
                Ok(())
            },
            PerfEvent::Mmap { pid, address, length, page_offset, executable, path } => {
                self.map_region(*pid, *address, *length, *page_offset, *executable, path, &None);
                Ok(())
            },
            PerfEvent::Mmap2 { pid, address, length, page_offset, protection, build_id, path } => {
                let executable: bool = *protection & PROT_EXEC != 0;
                self.map_region(*pid, *address, *length, *page_offset, executable, path, build_id);
                Ok(())
            },
            PerfEvent::Sample { layout, exact_ip, body } => {
                if layout.sample_format & parse::FORMAT_DATA_SRC == 0 {
                    self.skipped_samples = one_more(self.skipped_samples);
                    return Ok(());
                }
                match parse::parse_memory_sample(body.as_slice(), layout) {
                    Ok(sample) => {
                        self.record_sample(sample, *exact_ip);
                        Ok(())
                    },
                    Err(e) => Err(e),
                }
            },
            PerfEvent::Other => Ok(()),
        }
    }

    /// Reads one more record. A record that cannot be parsed, and a sample that
    /// cannot be read, leave the recording as it was.
    pub fn step_record(
        &mut self,
        record_type: u32,
        misc: u16,
        layout: &RecordLayout,
        body: &[u8],
    ) -> (r: Result<(), RecordError>)
        requires
            old(self).well_formed(),
            raw_record::parseable(record_type, misc, *layout, body@),
        ensures
            final(self).well_formed(),
            match raw_record::event_of_bytes(record_type, misc, *layout, body@) {
                Ok(event) => match r {
                    Ok(_) => after_facts(old(self).facts(), event) == Ok::<
                        RecorderFacts,
                        SampleError,
                    >(final(self).facts()),
                    Err(RecordError::Sample(e)) => after_facts(old(self).facts(), event) == Err::<
                        RecorderFacts,
                        SampleError,
                    >(e) && final(self).facts() == old(self).facts(),
                    Err(RecordError::Unparseable(_)) => false,
                },
                Err(message) => r matches Err(RecordError::Unparseable(e)) && e@ == message
                    && final(self).facts() == old(self).facts(),
            },
    {
        match raw_record::read_event(record_type, misc, layout, body) {
            Ok(event) => match self.step(&event) {
                Ok(_) => Ok(()),
                Err(e) => Err(RecordError::Sample(e)),
            },
            Err(e) => Err(RecordError::Unparseable(e)),
        }
    }

    /// The finished profile. A recording without usable memory samples is an error.
    pub fn finish(
        self,
        arch: Option<String>,
        cpu_description: Option<String>,
        perf_version: Option<String>,
        event_names: Vec<String>,
    ) -> (r: Result<C2cProfile, String>)
        ensures
            match r {
                Ok(p) => self.facts().samples.len() > 0 && types::accesses(p.samples@)
                    == self.facts().samples && p.arch == arch && p.cpu_description
                    == cpu_description && p.perf_version == perf_version && p.event_names
                    == event_names && p.cacheline_size == types::DEFAULT_CACHELINE_SIZE
                    && p.first_timestamp_ns == self.facts().first_timestamp_ns
                    && p.last_timestamp_ns == self.facts().last_timestamp_ns
                    && p.samples_with_callchains == self.facts().samples_with_callchains
                    && p.skipped_samples == self.facts().skipped_samples
                    && p.missing_data_address_samples == self.facts().missing_data_address_samples
                    && p.missing_physical_address_samples
                    == self.facts().missing_physical_address_samples,
                Err(e) => self.facts().samples.len() == 0 && e@
                    == "perf.data contains no memory samples with data addresses"@,
            },
    {
        if self.samples.len() == 0 {
            return Err("perf.data contains no memory samples with data addresses".to_string());
        }
        Ok(
            C2cProfile {
                arch,
                cpu_description,
                perf_version,
                event_names,
                cacheline_size: types::DEFAULT_CACHELINE_SIZE,
                first_timestamp_ns: self.first_timestamp_ns,
                last_timestamp_ns: self.last_timestamp_ns,
                samples: self.samples,
                samples_with_callchains: self.samples_with_callchains,
                skipped_samples: self.skipped_samples,
                missing_data_address_samples: self.missing_data_address_samples,
                missing_physical_address_samples: self.missing_physical_address_samples,
            },
        )
    }
}

/// What nothing tells.
pub open spec fn nothing_recorded() -> RecorderFacts {
    RecorderFacts {
        names: Map::empty(),
        code: Map::empty(),
        data: Map::empty(),
        samples: Seq::empty(),
        first_timestamp_ns: None,
        last_timestamp_ns: None,
        samples_with_callchains: 0,
        skipped_samples: 0,
        missing_data_address_samples: 0,
        missing_physical_address_samples: 0,
    }
}

/// What a recording tells after a sequence of events, if all can be read.
pub open spec fn after_events(events: Seq<PerfEvent>) -> Result<RecorderFacts, SampleError>
    decreases events.len(),
{
    if events.len() == 0 {
        Ok(nothing_recorded())
    } else {
        match after_events(events.drop_last()) {
            Ok(facts) => after_event(facts, events.last()),
            Err(e) => Err(e),
        }
    }
}

/// Reads a whole recording.
pub fn record_events(events: &Vec<PerfEvent>) -> (r: Result<C2cRecorder, SampleError>)
    ensures
        match r {
            Ok(recorder) => recorder.well_formed() && after_events(events@) == Ok::<
                RecorderFacts,
                SampleError,
            >(recorder.facts()),
            Err(e) => after_events(events@) == Err::<RecorderFacts, SampleError>(e),
        },
{
    let mut recorder = C2cRecorder::new();
    let mut i: usize = 0;
    while i < events.len()
        invariant
            i <= events@.len(),
            recorder.well_formed(),
            after_events(events@.take(i as int)) == Ok::<RecorderFacts, SampleError>(
                recorder.facts(),
            ),
        decreases events@.len() - i,
    {
        proof {
            assert(events@.take(i + 1).drop_last() =~= events@.take(i as int));
        }
        match recorder.step(&events[i]) {
            Ok(_) => {},
            Err(e) => {
                proof {
                    lemma_failure_stays(events@, i + 1, e);
                }
                return Err(e);
            },
        }
        i += 1;
    }
    assert(events@.take(events@.len() as int) =~= events@);
    Ok(recorder)
}

proof fn lemma_failure_stays(events: Seq<PerfEvent>, n: int, e: SampleError)
    requires
        0 <= n <= events.len(),
        after_events(events.take(n)) == Err::<RecorderFacts, SampleError>(e),
    ensures
        after_events(events) == Err::<RecorderFacts, SampleError>(e),
    decreases events.len() - n,
{
    if n < events.len() {
        assert(events.take(n + 1).drop_last() =~= events.take(n));
        lemma_failure_stays(events, n + 1, e);
    } else {
        assert(events.take(n) =~= events);
    }
}

/// A recording keeps every access it has seen, and each access has a data
/// address other than zero.
pub proof fn law_accesses_have_addresses(events: Seq<PerfEvent>)
    ensures
        after_events(events) matches Ok(facts) ==> forall|i: int|
            0 <= i < facts.samples.len() ==> (#[trigger] facts.samples[i]).data_address != 0,
    decreases events.len(),
{
    if events.len() > 0 {
        law_accesses_have_addresses(events.drop_last());
    }
}

/// Whether a time, if there is one, lies between two others.
pub open spec fn within(first: Option<u64>, last: Option<u64>, time: Option<u64>) -> bool {
    match time {
        Some(t) => match (first, last) {
            (Some(a), Some(b)) => a <= t <= b,
            _ => false,
        },
        None => true,
    }
}

/// The times of a recording span those of all its accesses.
pub proof fn law_times_span_accesses(events: Seq<PerfEvent>)
    ensures
        after_events(events) matches Ok(facts) ==> forall|i: int|
            0 <= i < facts.samples.len() ==> within(
                facts.first_timestamp_ns,
                facts.last_timestamp_ns,
                (#[trigger] facts.samples[i]).timestamp_ns,
            ),
    decreases events.len(),
{
    if events.len() > 0 {
        law_times_span_accesses(events.drop_last());
    }
}

/// The region that is found for an address holds it, and no region that starts
/// behind its start starts at or before the address. Where none is found, the
/// region that starts last at or before the address ends before it.
pub proof fn law_regions_hold_their_addresses(table: Seq<MappingFacts>, address: u64)
    requires
        starts_rise(table),
    ensures
        covering(table, address) matches Some(m) ==> table.contains(m) && m.start <= address < m.end
            && forall|i: int|
            0 <= i < table.len() && m.start < (#[trigger] table[i]).start ==> table[i].start
                > address,
        covering(table, address) is None ==> forall|i: int|
            #![trigger table[i]]
            0 <= i < table.len() && table[i].start <= address && (forall|j: int|
                i < j < table.len() ==> (#[trigger] table[j]).start > address) ==> table[i].end
                <= address,
    decreases table.len(),
{
    if table.len() > 0 {
        let last = table.last();
        let rest = table.drop_last();
        assert(table[table.len() - 1] == last);
        if last.start <= address {
            assert forall|i: int| 0 <= i < table.len() && last.start < (#[trigger] table[i]).start implies table[i].start
                > address by {
                if i < table.len() - 1 {
                    assert(table[i].start < table[table.len() - 1].start);
                }
            }
        } else {
            assert forall|i: int, j: int|
                #![trigger rest[i], rest[j]]
                0 <= i < j < rest.len() implies rest[i].start < rest[j].start by {
                assert(rest[i] == table[i] && rest[j] == table[j]);
            }
            law_regions_hold_their_addresses(rest, address);
            if let Some(m) = covering(table, address) {
                let i = choose|i: int| 0 <= i < rest.len() && rest[i] == m;
                assert(table[i] == m);
                assert forall|k: int| 0 <= k < table.len() && m.start < (#[trigger] table[k]).start implies table[k].start
                    > address by {
                    if k < rest.len() {
                        assert(rest[k] == table[k]);
                    }
                }
            } else {
                assert forall|i: int|
                    #![trigger table[i]]
                    0 <= i < table.len() && table[i].start <= address && (forall|j: int|
                        i < j < table.len() ==> (#[trigger] table[j]).start > address) implies table[i].end
                    <= address by {
                    assert(i < rest.len());
                    assert(rest[i] == table[i]);
                    assert forall|j: int| i < j < rest.len() implies (#[trigger] rest[j]).start
                        > address by {
                        assert(rest[j] == table[j]);
                    }
                }
            }
        }
    }
}

/// A new region is in the table, and the only one with its start; every region
/// with another start stays, and none comes.
pub proof fn law_new_regions_replace_their_start(
    table: Seq<MappingFacts>,
    m: MappingFacts,
    x: MappingFacts,
)
    requires
        starts_rise(table),
    ensures
        placed(table, m).contains(m),
        x.start != m.start ==> (placed(table, m).contains(x) <==> table.contains(x)),
        x.start == m.start && placed(table, m).contains(x) ==> x == m,
    decreases table.len(),
{
    let after = placed(table, m);
    if table.len() == 0 {
        assert(after[0] == m);
    } else {
        let rest = table.drop_last();
        let last = table.last();
        assert(table[table.len() - 1] == last);
        assert forall|i: int, j: int|
            #![trigger rest[i], rest[j]]
            0 <= i < j < rest.len() implies rest[i].start < rest[j].start by {
            assert(rest[i] == table[i] && rest[j] == table[j]);
        }
        if rest.contains(x) {
            let i = choose|i: int| 0 <= i < rest.len() && rest[i] == x;
            assert(table[i] == x);
            assert(table[i].start < table[table.len() - 1].start);
        }
        if table.contains(x) {
            let i = choose|i: int| 0 <= i < table.len() && table[i] == x;
            if i < rest.len() {
                assert(rest[i] == x);
            }
        }
        let before = if last.start < m.start {
            table
        } else if last.start == m.start {
            rest
        } else {
            law_new_regions_replace_their_start(rest, m, x);
            placed(rest, m)
        };
        let tail = after.last();
        assert(after =~= before.push(tail));
        assert(after[before.len() as int] == tail);
        if before.contains(x) {
            let i = choose|i: int| 0 <= i < before.len() && before[i] == x;
            assert(after[i] == x);
        }
        if before.contains(m) {
            let i = choose|i: int| 0 <= i < before.len() && before[i] == m;
            assert(after[i] == m);
        }
        if after.contains(x) {
            let i = choose|i: int| 0 <= i < after.len() && after[i] == x;
            if i < before.len() {
                assert(before[i] == x);
            }
        }
    }
}

/// The place of an address in a file is as far behind the file offset of its
/// region as the address is behind the region's start. The process' own region
/// goes before the kernel's.
pub proof fn law_addresses_have_places(
    tables: Map<i32, Seq<MappingFacts>>,
    pid: i32,
    address: u64,
    m: MappingFacts,
)
    requires
        tables.contains_key(pid) && covering(tables[pid], address) == Some(m) || ((
        !tables.contains_key(pid) || covering(tables[pid], address) is None) && tables.contains_key(
            -1i32,
        ) && covering(tables[-1i32], address) == Some(m)),
        m.start <= address,
    ensures
        instruction_at(tables, pid, address) matches Some(place) ==> place.path == m.path
            && place.build_id == m.build_id && place.relative_address - m.page_offset == address
            - m.start,
        instruction_at(tables, pid, address) is None <==> address - m.start + m.page_offset
            > u64::MAX,
        data_at(tables, pid, address) matches Some(place) ==> {
            &&& place.path == m.path
            &&& place.build_id == m.build_id
            &&& place.mapping_start == m.start
            &&& place.mapping_end == m.end
            &&& place.page_offset == m.page_offset
            &&& place.mapping_start + place.mapping_offset == address
            &&& place.file_offset == place.mapping_offset + place.page_offset
        },
        data_at(tables, pid, address) is None <==> address - m.start + m.page_offset > u64::MAX,
{
    assert(covering(Seq::<MappingFacts>::empty(), address) is None);
}

/// The callers of a recorded callchain are its addresses in their order, but
/// for zeros and context markers, and none is left out.
pub proof fn law_callers_keep_their_order(
    code: Map<i32, Seq<MappingFacts>>,
    pid: i32,
    chain: Seq<u64>,
)
    ensures
        exists|at: Seq<int>|
            #![trigger at.len()]
            {
                let r = callers_in(code, pid, chain);
                &&& at.len() == r.len()
                &&& forall|i: int|
                    0 <= i < at.len() ==> 0 <= #[trigger] at[i] < chain.len()
                        && r[i].instruction_address == chain[at[i]] && r[i].mapped == instruction_at(
                        code,
                        pid,
                        chain[at[i]],
                    )
                &&& forall|i: int, j: int|
                    #![trigger at[i], at[j]]
                    0 <= i < j < at.len() ==> at[i] < at[j]
                &&& forall|k: int|
                    #![trigger chain[k]]
                    0 <= k < chain.len() ==> (at.contains(k) <==> chain[k] != 0
                        && !parse::context_marker(chain[k]))
            },
{
    let at = lemma_callers_at(code, pid, chain);
    assert(at.len() == at.len());
}

proof fn lemma_callers_at(code: Map<i32, Seq<MappingFacts>>, pid: i32, chain: Seq<u64>) -> (at: Seq<
    int,
>)
    ensures
        at.len() == callers_in(code, pid, chain).len(),
        forall|i: int|
            0 <= i < at.len() ==> 0 <= #[trigger] at[i] < chain.len() && callers_in(
                code,
                pid,
                chain,
            )[i].instruction_address == chain[at[i]] && callers_in(code, pid, chain)[i].mapped
                == instruction_at(code, pid, chain[at[i]]),
        forall|i: int, j: int|
            #![trigger at[i], at[j]]
            0 <= i < j < at.len() ==> at[i] < at[j],
        forall|k: int|
            #![trigger chain[k]]
            0 <= k < chain.len() ==> (at.contains(k) <==> chain[k] != 0 && !parse::context_marker(
                chain[k],
            )),
    decreases chain.len(),
{
    if chain.len() == 0 {
        Seq::empty()
    } else {
        let rest = chain.drop_last();
        let before = lemma_callers_at(code, pid, rest);
        let kept = chain.last() != 0 && !parse::context_marker(chain.last());
        let at = if kept {
            before.push(chain.len() - 1)
        } else {
            before
        };
        assert forall|i: int| 0 <= i < before.len() implies at[i] == before[i] && rest[
        #[trigger] before[i]] == chain[before[i]] by {}
        assert forall|k: int|
            #![trigger chain[k]]
            0 <= k < chain.len() implies (at.contains(k) <==> chain[k] != 0
            && !parse::context_marker(chain[k])) by {
            if at.contains(k) {
                let i = choose|i: int| 0 <= i < at.len() && at[i] == k;
                if i < before.len() {
                    assert(before[i] == k);
                }
            }
            if k < rest.len() {
                assert(rest[k] == chain[k]);
                if before.contains(k) {
                    let i = choose|i: int| 0 <= i < before.len() && before[i] == k;
                    assert(at[i] == k);
                }
            } else if kept {
                assert(at[before.len() as int] == k);
            }
        }
        at
    }
}

/// A region is found as one of data in any case, and as one of code only where
/// it can be executed; other processes' regions, and all that was recorded
/// before, stay.
pub proof fn law_regions_of_code_are_executable(
    facts: RecorderFacts,
    pid: i32,
    address: u64,
    length: u64,
    page_offset: u64,
    executable: bool,
    path: Seq<u8>,
)
    requires
        0 < length,
        address + length <= u64::MAX,
        starts_rise(regions_in(facts.code, pid)),
        starts_rise(regions_in(facts.data, pid)),
    ensures
        after_facts(
            facts,
            EventFacts::Mmap { pid, address, length, page_offset, executable, path },
        ) matches Ok(after) && {
            &&& !executable ==> after.code == facts.code
            &&& executable ==> (region_at(after.code, pid, address) matches Some(m) && m.start
                == address && m.end == address + length && m.page_offset == page_offset)
            &&& region_at(after.data, pid, address) matches Some(m) && m.start == address && m.end
                == address + length && m.page_offset == page_offset
            &&& forall|other: i32|
                other != pid ==> (#[trigger] after.data.contains_key(other)
                    <==> facts.data.contains_key(other)) && (facts.data.contains_key(other)
                    ==> after.data[other] == facts.data[other])
            &&& forall|other: i32|
                other != pid ==> (#[trigger] after.code.contains_key(other)
                    <==> facts.code.contains_key(other)) && (facts.code.contains_key(other)
                    ==> after.code[other] == facts.code[other])
            &&& after.samples == facts.samples
            &&& after.names == facts.names
        },
{
    let m = region(address, length, page_offset, path, None);
    law_latest_region_is_found(regions_in(facts.code, pid), m);
    law_latest_region_is_found(regions_in(facts.data, pid), m);
}

/// A process that starts has the regions of its parent, and a thread the name
/// of the one that started it, where they are known.
pub proof fn law_children_inherit(facts: RecorderFacts, pid: i32, ppid: i32, tid: i32, ptid: i32)
    ensures
        after_facts(facts, EventFacts::Fork { pid, ppid, tid, ptid }) matches Ok(after) && {
            &&& facts.code.contains_key(ppid) ==> after.code.contains_key(pid) && after.code[pid]
                == facts.code[ppid]
            &&& facts.data.contains_key(ppid) ==> after.data.contains_key(pid) && after.data[pid]
                == facts.data[ppid]
            &&& facts.names.contains_key(ptid) ==> after.names.contains_key(tid) && after.names[tid]
                == facts.names[ptid]
            &&& !facts.names.contains_key(ptid) ==> after.names == facts.names
            &&& after.samples == facts.samples
        },
{
}

/// A memory sample without a data address is counted as missing one and is
/// nothing else. One with a data address is one more access, with a weight of
/// one where none is recorded, and with a physical address only where that is
/// not zero.
pub proof fn law_samples_become_accesses(
    facts: RecorderFacts,
    sample: parse::SampleFacts,
    exact_ip: bool,
)
    requires
        facts.missing_data_address_samples < usize::MAX,
    ensures
        ({
            let after = with_sample(facts, sample, exact_ip);
            &&& sample.data_address is None || sample.data_address->0 == 0 ==> after.samples
                == facts.samples && after.missing_data_address_samples
                == facts.missing_data_address_samples + 1 && after.first_timestamp_ns
                == facts.first_timestamp_ns && after.last_timestamp_ns == facts.last_timestamp_ns
            &&& sample.data_address is Some && sample.data_address->0 != 0 ==> {
                let access = after.samples.last();
                &&& after.samples.len() == facts.samples.len() + 1
                &&& after.samples.drop_last() == facts.samples
                &&& after.missing_data_address_samples == facts.missing_data_address_samples
                &&& access.data_address == sample.data_address->0
                &&& access.timestamp_ns == sample.timestamp_ns
                &&& access.exact_ip == exact_ip
                &&& access.data_source.raw == sample.data_source
                &&& access.instruction_latency == sample.instruction_latency
                &&& access.weight == if sample.weight is Some {
                    sample.weight->0
                } else {
                    1
                }
                &&& access.physical_address is Some <==> sample.physical_address is Some
                    && sample.physical_address->0 != 0
                &&& access.physical_address is Some ==> access.physical_address
                    == sample.physical_address
                &&& sample.pid matches Some(pid) ==> access.pid == pid
                &&& sample.tid matches Some(tid) ==> access.tid == tid && (facts.names.contains_key(
                    tid,
                ) ==> access.thread_name == facts.names[tid])
                &&& sample.cpu matches Some(cpu) ==> access.cpu == cpu
                &&& sample.instruction_address matches Some(ip) ==> access.instruction_address == ip
            }
        }),
{
    let after = with_sample(facts, sample, exact_ip);
    if sample.data_address is Some && sample.data_address->0 != 0 {
        assert(after.samples.drop_last() =~= facts.samples);
    }
}

}
