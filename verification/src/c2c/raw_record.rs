//! The records of a perf recording: bytes, and how an event lays them out.
use crate::c2c::parse;
use crate::c2c::parse::SampleLayout;
use crate::c2c::record::{EventFacts, PerfEvent};
use linux_perf_data::linux_perf_event_reader::{
    BranchSampleFormat, Endianness, EventRecord, Mmap2FileId, RawData, RawEventRecord, ReadFormat,
    RecordIdParseInfo, RecordParseInfo, RecordType, SampleFormat,
};
use vstd::prelude::*;
use vstd::slice::slice_to_vec;

verus! {

/// The type of records of samples.
pub const RECORD_SAMPLE: u32 = 9;

/// The type of records of regions with their protection.
pub const RECORD_MMAP2: u32 = 10;

/// The bit of `misc` by which a region comes with a build id.
pub const MISC_MMAP_BUILD_ID: u16 = 0x4000;

/// The bit of `misc` by which the instruction address of a sample is exact.
pub const MISC_EXACT_IP: u16 = 0x4000;

/// The bit of the branch format by which a branch stack has a hardware index.
pub const BRANCH_HW_INDEX: u64 = 0x20000;

/// Where the build id of a region starts.
pub const BUILD_ID_AT: usize = 32;

/// The longest build id.
pub const MAX_BUILD_ID: u8 = 20;

/// The fields of a sample that stand before its callchain.
pub const LEADING_FIELDS: u64 = 0x103df;

/// How the records of an event are laid out.
#[derive(Debug, Clone, Copy, PartialEq, Eq)]
pub struct RecordLayout {
    pub big_endian: bool,
    pub sample_format: u64,
    pub branch_sample_format: u64,
    pub read_format: u64,
    pub sample_regs_user: u64,
    pub user_regs_count: u8,
    pub sample_regs_intr: u64,
    pub intr_regs_count: u8,
    pub common_data_offset_from_end: Option<u8>,
    pub nonsample_id_offset_from_end: Option<u8>,
    pub sample_id_offset_from_start: Option<u8>,
    pub nonsample_time_offset_from_end: Option<u8>,
    pub sample_time_offset_from_start: Option<u8>,
}

impl RecordLayout {
    /// How the samples of the event are laid out.
    pub open spec fn of_samples(self) -> SampleLayout {
        SampleLayout {
            big_endian: self.big_endian,
            sample_format: self.sample_format,
            read_format: self.read_format,
            branch_hw_index: self.branch_sample_format & BRANCH_HW_INDEX != 0,
            user_regs_count: self.user_regs_count,
            intr_regs_count: self.intr_regs_count,
        }
    }

    /// How the samples of the event are laid out.
    pub fn sample_layout(&self) -> (r: SampleLayout)
        ensures
            r == self.of_samples(),
    {
        SampleLayout {
            big_endian: self.big_endian,
            sample_format: self.sample_format,
            read_format: self.read_format,
            branch_hw_index: self.branch_sample_format & BRANCH_HW_INDEX != 0,
            user_regs_count: self.user_regs_count,
            intr_regs_count: self.intr_regs_count,
        }
    }

    /// How the record parser lays out the fields before a callchain: it takes
    /// the values of one counter for those of a group, and the other way round.
    pub open spec fn leading(self) -> SampleLayout {
        SampleLayout {
            sample_format: self.sample_format & LEADING_FIELDS,
            read_format: self.read_format ^ parse::READ_GROUP,
            ..self.of_samples()
        }
    }
}

/// Where the record parser looks for the length of a callchain, if it gets there.
pub open spec fn callchain_place(layout: RecordLayout, body: Seq<u8>) -> parse::Place {
    match parse::fields_in(body, layout.leading()) {
        Ok((pos, sample)) => Ok(pos),
        Err(e) => Err(e),
    }
}

/// Whether the record parser can take a record: no build id is longer than the
/// longest, and no callchain has more bytes than can be counted.
pub open spec fn parseable(record_type: u32, misc: u16, layout: RecordLayout, body: Seq<u8>) -> bool {
    &&& record_type == RECORD_MMAP2 && misc & MISC_MMAP_BUILD_ID != 0 && body.len() > BUILD_ID_AT
        ==> body[BUILD_ID_AT as int] <= MAX_BUILD_ID
    &&& record_type == RECORD_SAMPLE && parse::announces(
        layout.sample_format,
        parse::FORMAT_CALLCHAIN,
    ) ==> match callchain_place(layout, body) {
        Ok(pos) => parse::fits(body, pos, 8) ==> 8 * parse::number_at(
            body,
            pos,
            8,
            layout.big_endian,
        ) <= usize::MAX,
        Err(e) => true,
    }
}

/// Whether the record parser can take a record.
pub fn is_parseable(record_type: u32, misc: u16, layout: &RecordLayout, body: &[u8]) -> (r: bool)
    ensures
        r == parseable(record_type, misc, *layout, body@),
{
    if record_type == RECORD_MMAP2 {
        return misc & MISC_MMAP_BUILD_ID == 0 || body.len() <= BUILD_ID_AT || body[BUILD_ID_AT]
            <= MAX_BUILD_ID;
    }
    if record_type != RECORD_SAMPLE || layout.sample_format & parse::FORMAT_CALLCHAIN == 0 {
        return true;
    }
    let samples = layout.sample_layout();
    let leading = SampleLayout {
        sample_format: samples.sample_format & LEADING_FIELDS,
        read_format: samples.read_format ^ parse::READ_GROUP,
        ..samples
    };
    match parse::read_fields(body, &leading) {
        Ok((pos, _)) => body.len() - pos < 8 || parse::read_number(body, pos, 8, layout.big_endian)
            <= usize::MAX as u64 / 8,
        Err(_) => true,
    }
}

/// What a record says.
#[derive(Debug, Clone, PartialEq, Eq)]
pub enum ParsedRecord {
    Comm { tid: i32, name: Vec<u8> },
    Fork { pid: i32, ppid: i32, tid: i32, ptid: i32 },
    Mmap {
        pid: i32,
        address: u64,
        length: u64,
        page_offset: u64,
        executable: bool,
        path: Vec<u8>,
    },
    Mmap2 {
        pid: i32,
        address: u64,
        length: u64,
        page_offset: u64,
        protection: u32,
        build_id: Option<Vec<u8>>,
        path: Vec<u8>,
    },
    Sample,
    Other,
}

/// What a record says, as mathematics.
#[verifier::ext_equal]
pub enum RecordFacts {
    Comm { tid: i32, name: Seq<u8> },
    Fork { pid: i32, ppid: i32, tid: i32, ptid: i32 },
    Mmap {
        pid: i32,
        address: u64,
        length: u64,
        page_offset: u64,
        executable: bool,
        path: Seq<u8>,
    },
    Mmap2 {
        pid: i32,
        address: u64,
        length: u64,
        page_offset: u64,
        protection: u32,
        build_id: Option<Seq<u8>>,
        path: Seq<u8>,
    },
    Sample,
    Other,
}

/// What kind of record it is.
#[derive(Debug, Clone, Copy, PartialEq, Eq, Structural)]
pub enum RecordKind {
    Comm,
    Fork,
    Mmap,
    Mmap2,
    Sample,
    Other,
}

impl RecordFacts {
    /// What kind of record it is.
    pub open spec fn kind(self) -> RecordKind {
        match self {
            RecordFacts::Comm { .. } => RecordKind::Comm,
            RecordFacts::Fork { .. } => RecordKind::Fork,
            RecordFacts::Mmap { .. } => RecordKind::Mmap,
            RecordFacts::Mmap2 { .. } => RecordKind::Mmap2,
            RecordFacts::Sample => RecordKind::Sample,
            RecordFacts::Other => RecordKind::Other,
        }
    }
}

/// The bytes of an identifier, if there is one.
pub open spec fn opt_bytes(bytes: Option<Vec<u8>>) -> Option<Seq<u8>> {
    match bytes {
        Some(bytes) => Some(bytes@),
        None => None,
    }
}

impl ParsedRecord {
    /// What the record says.
    pub open spec fn facts(self) -> RecordFacts {
        match self {
            ParsedRecord::Comm { tid, name } => RecordFacts::Comm { tid, name: name@ },
            ParsedRecord::Fork { pid, ppid, tid, ptid } => RecordFacts::Fork {
                pid,
                ppid,
                tid,
                ptid,
            },
            ParsedRecord::Mmap { pid, address, length, page_offset, executable, path } => {
                RecordFacts::Mmap { pid, address, length, page_offset, executable, path: path@ }
            },
            ParsedRecord::Mmap2 {
                pid,
                address,
                length,
                page_offset,
                protection,
                build_id,
                path,
            } => RecordFacts::Mmap2 {
                pid,
                address,
                length,
                page_offset,
                protection,
                build_id: opt_bytes(build_id),
                path: path@,
            },
            ParsedRecord::Sample => RecordFacts::Sample,
            ParsedRecord::Other => RecordFacts::Other,
        }
    }
}

/// How the record parser is told of a layout.
#[verifier::external_type_specification]
#[verifier::external_body]
pub struct ExRecordParseInfo(RecordParseInfo);

/// The layout that a `RecordParseInfo` holds in its public fields.
pub uninterp spec fn info_layout(info: RecordParseInfo) -> RecordLayout;

/// What `RawEventRecord::parse` makes of a record, or the text of its error.
pub uninterp spec fn parsed_record(
    record_type: u32,
    misc: u16,
    layout: RecordLayout,
    body: Seq<u8>,
) -> Result<RecordFacts, Seq<char>>;

/// A `RecordParseInfo` with a given layout. Its flags are made with
/// `from_bits_retain`, which keeps every bit.
#[verifier::external_body]
fn parse_info(layout: &RecordLayout) -> (r: RecordParseInfo)
    ensures
        info_layout(r) == *layout,
{
    let (l, id) = (*layout, (layout.nonsample_id_offset_from_end, layout.sample_id_offset_from_start));
    RecordParseInfo {
        endian: if l.big_endian { Endianness::BigEndian } else { Endianness::LittleEndian },
        sample_format: SampleFormat::from_bits_retain(l.sample_format),
        branch_sample_format: BranchSampleFormat::from_bits_retain(l.branch_sample_format),
        read_format: ReadFormat::from_bits_retain(l.read_format),
        common_data_offset_from_end: l.common_data_offset_from_end,
        sample_regs_user: l.sample_regs_user, user_regs_count: l.user_regs_count,
        sample_regs_intr: l.sample_regs_intr, intr_regs_count: l.intr_regs_count,
        id_parse_info: RecordIdParseInfo { nonsample_record_id_offset_from_end: id.0, sample_record_id_offset_from_start: id.1 },
        nonsample_record_time_offset_from_end: l.nonsample_time_offset_from_end,
        sample_record_time_offset_from_start: l.sample_time_offset_from_start,
    }
}

/// `RawEventRecord::parse`: the kind of a record, or why it cannot be parsed.
/// The contract names what it parses. It panics on a build id that is too long
/// and on a callchain whose size overflows; such records are left out.
#[verifier::external_body]
fn parse_kind(record_type: u32, misc: u16, info: &RecordParseInfo, body: &[u8]) -> (r: Result<
    RecordKind,
    String,
>)
    requires
        parseable(record_type, misc, info_layout(*info), body@),
    ensures
        match r {
            Ok(kind) => parsed_record(record_type, misc, info_layout(*info), body@) matches Ok(
                record,
            ) && record.kind() == kind,
            Err(e) => parsed_record(record_type, misc, info_layout(*info), body@) == Err::<
                RecordFacts,
                Seq<char>,
            >(e@),
        },
{
    let raw = RawEventRecord::new(RecordType(record_type), misc, RawData::Single(body), *info);
    match raw.parse().map_err(|e| e.to_string())? {
        EventRecord::Comm(_) => Ok(RecordKind::Comm),
        EventRecord::Fork(_) => Ok(RecordKind::Fork),
        EventRecord::Mmap(_) => Ok(RecordKind::Mmap),
        EventRecord::Mmap2(_) => Ok(RecordKind::Mmap2),
        EventRecord::Sample(_) => Ok(RecordKind::Sample),
        _ => Ok(RecordKind::Other),
    }
}

/// `RawEventRecord::parse` of a record that names a thread: the thread and the
/// bytes of the name. None for any other record.
#[verifier::external_body]
fn parse_comm(record_type: u32, misc: u16, info: &RecordParseInfo, body: &[u8]) -> (r: Option<
    ParsedRecord,
>)
    requires
        parseable(record_type, misc, info_layout(*info), body@),
    ensures
        is_part(r, RecordKind::Comm, parsed_record(record_type, misc, info_layout(*info), body@)),
{
    let raw = RawEventRecord::new(RecordType(record_type), misc, RawData::Single(body), *info);
    match raw.parse() {
        Ok(EventRecord::Comm(c)) => {
            Some(ParsedRecord::Comm { tid: c.tid, name: c.name.as_slice().into_owned() })
        }
        _ => None,
    }
}

/// `RawEventRecord::parse` of a record by which a process or a thread starts.
/// None for any other record.
#[verifier::external_body]
fn parse_fork(record_type: u32, misc: u16, info: &RecordParseInfo, body: &[u8]) -> (r: Option<
    ParsedRecord,
>)
    requires
        parseable(record_type, misc, info_layout(*info), body@),
    ensures
        is_part(r, RecordKind::Fork, parsed_record(record_type, misc, info_layout(*info), body@)),
{
    let raw = RawEventRecord::new(RecordType(record_type), misc, RawData::Single(body), *info);
    match raw.parse() {
        Ok(EventRecord::Fork(f)) => {
            Some(ParsedRecord::Fork { pid: f.pid, ppid: f.ppid, tid: f.tid, ptid: f.ptid })
        }
        _ => None,
    }
}

/// `RawEventRecord::parse` of a record that maps a region. None for any other
/// record.
#[verifier::external_body]
fn parse_mmap(record_type: u32, misc: u16, info: &RecordParseInfo, body: &[u8]) -> (r: Option<
    ParsedRecord,
>)
    requires
        parseable(record_type, misc, info_layout(*info), body@),
    ensures
        is_part(r, RecordKind::Mmap, parsed_record(record_type, misc, info_layout(*info), body@)),
{
    let raw = RawEventRecord::new(RecordType(record_type), misc, RawData::Single(body), *info);
    match raw.parse() {
        Ok(EventRecord::Mmap(m)) => Some(ParsedRecord::Mmap {
            pid: m.pid, address: m.address, length: m.length, page_offset: m.page_offset,
            executable: m.is_executable, path: m.path.as_slice().into_owned(),
        }),
        _ => None,
    }
}

/// `RawEventRecord::parse` of a record that maps a region, with its protection
/// and perhaps its build id. None for any other record.
#[verifier::external_body]
fn parse_mmap2(record_type: u32, misc: u16, info: &RecordParseInfo, body: &[u8]) -> (r: Option<
    ParsedRecord,
>)
    requires
        parseable(record_type, misc, info_layout(*info), body@),
    ensures
        is_part(r, RecordKind::Mmap2, parsed_record(record_type, misc, info_layout(*info), body@)),
{
    let raw = RawEventRecord::new(RecordType(record_type), misc, RawData::Single(body), *info);
    match raw.parse() {
        Ok(EventRecord::Mmap2(m)) => Some(ParsedRecord::Mmap2 {
            pid: m.pid, address: m.address, length: m.length, page_offset: m.page_offset,
            protection: m.protection, path: m.path.as_slice().into_owned(),
            build_id: match m.file_id {
                Mmap2FileId::BuildId(bytes) => Some(bytes),
                Mmap2FileId::InodeAndVersion(_) => None,
            },
        }),
        _ => None,
    }
}

/// Whether a part is the record, where the record is of a kind, and none else.
pub open spec fn is_part(
    part: Option<ParsedRecord>,
    kind: RecordKind,
    record: Result<RecordFacts, Seq<char>>,
) -> bool {
    match record {
        Ok(facts) if facts.kind() == kind => part matches Some(p) && p.facts() == facts,
        _ => part is None,
    }
}

/// What a record says, or why it cannot be parsed.
fn parse_record(record_type: u32, misc: u16, layout: &RecordLayout, body: &[u8]) -> (r: Result<
    ParsedRecord,
    String,
>)
    requires
        parseable(record_type, misc, *layout, body@),
    ensures
        match r {
            Ok(record) => parsed_record(record_type, misc, *layout, body@) == Ok::<
                RecordFacts,
                Seq<char>,
            >(record.facts()),
            Err(e) => parsed_record(record_type, misc, *layout, body@) == Err::<
                RecordFacts,
                Seq<char>,
            >(e@),
        },
{
    let info = parse_info(layout);
    let kind: RecordKind = match parse_kind(record_type, misc, &info, body) {
        Ok(kind) => kind,
        Err(e) => {
            return Err(e);
        },
    };
    let part = match kind {
        RecordKind::Comm => parse_comm(record_type, misc, &info, body),
        RecordKind::Fork => parse_fork(record_type, misc, &info, body),
        RecordKind::Mmap => parse_mmap(record_type, misc, &info, body),
        RecordKind::Mmap2 => parse_mmap2(record_type, misc, &info, body),
        RecordKind::Sample => Some(ParsedRecord::Sample),
        RecordKind::Other => Some(ParsedRecord::Other),
    };
    Ok(part.unwrap())
}

/// The event that a record stands for.
pub open spec fn event_in(
    record: RecordFacts,
    misc: u16,
    layout: RecordLayout,
    body: Seq<u8>,
) -> EventFacts {
    match record {
        RecordFacts::Comm { tid, name } => EventFacts::Comm { tid, name },
        RecordFacts::Fork { pid, ppid, tid, ptid } => EventFacts::Fork { pid, ppid, tid, ptid },
        RecordFacts::Mmap { pid, address, length, page_offset, executable, path } => {
            EventFacts::Mmap { pid, address, length, page_offset, executable, path }
        },
        RecordFacts::Mmap2 { pid, address, length, page_offset, protection, build_id, path } => {
            EventFacts::Mmap2 { pid, address, length, page_offset, protection, build_id, path }
        },
        RecordFacts::Sample => EventFacts::Sample {
            layout: layout.of_samples(),
            exact_ip: misc & MISC_EXACT_IP != 0,
            body,
        },
        RecordFacts::Other => EventFacts::Other,
    }
}

/// The event that a record stands for, by what was parsed of it.
pub fn make_event(record: ParsedRecord, misc: u16, layout: &RecordLayout, body: &[u8]) -> (r:
    PerfEvent)
    ensures
        r.facts() == event_in(record.facts(), misc, *layout, body@),
{
    match record {
        ParsedRecord::Comm { tid, name } => PerfEvent::Comm { tid, name },
        ParsedRecord::Fork { pid, ppid, tid, ptid } => PerfEvent::Fork { pid, ppid, tid, ptid },
        ParsedRecord::Mmap { pid, address, length, page_offset, executable, path } => {
            PerfEvent::Mmap { pid, address, length, page_offset, executable, path }
        },
        ParsedRecord::Mmap2 { pid, address, length, page_offset, protection, build_id, path } => {
            PerfEvent::Mmap2 { pid, address, length, page_offset, protection, build_id, path }
        },
        ParsedRecord::Sample => PerfEvent::Sample {
            layout: layout.sample_layout(),
            exact_ip: misc & MISC_EXACT_IP != 0,
            body: slice_to_vec(body),
        },
        ParsedRecord::Other => PerfEvent::Other,
    }
}

/// What the bytes of a record stand for, or why they cannot be parsed.
pub open spec fn event_of_bytes(
    record_type: u32,
    misc: u16,
    layout: RecordLayout,
    body: Seq<u8>,
) -> Result<EventFacts, Seq<char>> {
    match parsed_record(record_type, misc, layout, body) {
        Ok(record) => Ok(event_in(record, misc, layout, body)),
        Err(e) => Err(e),
    }
}

/// The event that the bytes of a record stand for.
pub fn read_event(record_type: u32, misc: u16, layout: &RecordLayout, body: &[u8]) -> (r: Result<
    PerfEvent,
    String,
>)
    requires
        parseable(record_type, misc, *layout, body@),
    ensures
        match r {
            Ok(event) => event_of_bytes(record_type, misc, *layout, body@) == Ok::<
                EventFacts,
                Seq<char>,
            >(event.facts()),
            Err(e) => event_of_bytes(record_type, misc, *layout, body@) == Err::<
                EventFacts,
                Seq<char>,
            >(e@),
        },
{
    match parse_record(record_type, misc, layout, body) {
        Ok(record) => Ok(make_event(record, misc, layout, body)),
        Err(e) => Err(e),
    }
}

}
