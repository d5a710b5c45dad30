//! The body of a perf memory sample: a sequence of fields that the event's
//! format announces, in the order of the perf record format.
use vstd::prelude::*;

verus! {

pub const FORMAT_IP: u64 = 0x1;

pub const FORMAT_TID: u64 = 0x2;

pub const FORMAT_TIME: u64 = 0x4;

pub const FORMAT_ADDR: u64 = 0x8;

pub const FORMAT_READ: u64 = 0x10;

pub const FORMAT_CALLCHAIN: u64 = 0x20;

pub const FORMAT_ID: u64 = 0x40;

pub const FORMAT_CPU: u64 = 0x80;

pub const FORMAT_PERIOD: u64 = 0x100;

pub const FORMAT_STREAM_ID: u64 = 0x200;

pub const FORMAT_RAW: u64 = 0x400;

pub const FORMAT_BRANCH_STACK: u64 = 0x800;

pub const FORMAT_REGS_USER: u64 = 0x1000;

pub const FORMAT_STACK_USER: u64 = 0x2000;

pub const FORMAT_WEIGHT: u64 = 0x4000;

pub const FORMAT_DATA_SRC: u64 = 0x8000;

pub const FORMAT_IDENTIFIER: u64 = 0x10000;

pub const FORMAT_TRANSACTION: u64 = 0x20000;

pub const FORMAT_REGS_INTR: u64 = 0x40000;

pub const FORMAT_PHYS_ADDR: u64 = 0x80000;

pub const FORMAT_AUX: u64 = 0x100000;

pub const FORMAT_CGROUP: u64 = 0x200000;

pub const FORMAT_DATA_PAGE_SIZE: u64 = 0x400000;

pub const FORMAT_CODE_PAGE_SIZE: u64 = 0x800000;

pub const FORMAT_WEIGHT_STRUCT: u64 = 0x1000000;

pub const READ_TOTAL_TIME_ENABLED: u64 = 0x1;

pub const READ_TOTAL_TIME_RUNNING: u64 = 0x2;

pub const READ_ID: u64 = 0x4;

pub const READ_GROUP: u64 = 0x8;

/// The longest callchain that is read.
pub const MAX_CALLCHAIN: u64 = 1_000_000;

/// How the samples of an event are laid out.
#[derive(Debug, Clone, Copy, PartialEq, Eq, Structural)]
pub struct SampleLayout {
    pub big_endian: bool,
    pub sample_format: u64,
    pub read_format: u64,
    pub branch_hw_index: bool,
    pub user_regs_count: u8,
    pub intr_regs_count: u8,
}

/// A field of a sample.
#[derive(Debug, Clone, Copy, PartialEq, Eq, Structural)]
pub enum Field {
    /// A number that is not used.
    Unused,
    Ip,
    Tid,
    Time,
    Addr,
    Cpu,
    Read,
    Callchain,
    Raw,
    BranchStack,
    RegsUser,
    StackUser,
    Weight,
    DataSrc,
    RegsIntr,
    PhysAddr,
    Aux,
}

/// Why a sample cannot be read.
#[derive(Debug, Clone, Copy, PartialEq, Eq, Structural)]
pub enum SampleError {
    Truncated,
    CallchainTooLong,
    ArrayTooLarge,
}

impl SampleError {
    /// The message of the error.
    pub open spec fn text(self) -> Seq<char> {
        match self {
            SampleError::Truncated => "unexpected end of file"@,
            SampleError::CallchainTooLong => {
                "perf callchain exceeds the one-million-frame safety limit"@
            },
            SampleError::ArrayTooLarge => "perf sample array is too large"@,
        }
    }

    /// The message of the error.
    pub fn message(self) -> (r: String)
        ensures
            r@ == self.text(),
    {
        match self {
            SampleError::Truncated => "unexpected end of file".to_string(),
            SampleError::CallchainTooLong => {
                "perf callchain exceeds the one-million-frame safety limit".to_string()
            },
            SampleError::ArrayTooLarge => "perf sample array is too large".to_string(),
        }
    }
}

/// A memory sample as its record gives it.
#[derive(Debug)]
pub struct ParsedMemorySample {
    pub instruction_address: Option<u64>,
    pub pid: Option<i32>,
    pub tid: Option<i32>,
    pub timestamp_ns: Option<u64>,
    pub data_address: Option<u64>,
    pub cpu: Option<u32>,
    pub callchain: Vec<u64>,
    pub weight: Option<u64>,
    pub instruction_latency: Option<u16>,
    pub data_source: u64,
    pub physical_address: Option<u64>,
}

/// A memory sample, as mathematics.
#[verifier::ext_equal]
pub struct SampleFacts {
    pub instruction_address: Option<u64>,
    pub pid: Option<i32>,
    pub tid: Option<i32>,
    pub timestamp_ns: Option<u64>,
    pub data_address: Option<u64>,
    pub cpu: Option<u32>,
    pub callchain: Seq<u64>,
    pub weight: Option<u64>,
    pub instruction_latency: Option<u16>,
    pub data_source: u64,
    pub physical_address: Option<u64>,
}

impl ParsedMemorySample {
    /// What the sample says.
    pub open spec fn facts(self) -> SampleFacts {
        SampleFacts {
            instruction_address: self.instruction_address,
            pid: self.pid,
            tid: self.tid,
            timestamp_ns: self.timestamp_ns,
            data_address: self.data_address,
            cpu: self.cpu,
            callchain: self.callchain@,
            weight: self.weight,
            instruction_latency: self.instruction_latency,
            data_source: self.data_source,
            physical_address: self.physical_address,
        }
    }
}

/// A sample of which nothing is known.
pub open spec fn blank() -> SampleFacts {
    SampleFacts {
        instruction_address: None,
        pid: None,
        tid: None,
        timestamp_ns: None,
        data_address: None,
        cpu: None,
        callchain: Seq::empty(),
        weight: None,
        instruction_latency: None,
        data_source: 0,
        physical_address: None,
    }
}

/// Whether a format announces a field.
pub open spec fn announces(format: u64, flag: u64) -> bool {
    format & flag != 0
}

/// A field if the format announces it.
pub open spec fn field_if(format: u64, flag: u64, field: Field) -> Seq<Field> {
    if announces(format, flag) {
        seq![field]
    } else {
        Seq::empty()
    }
}

/// The fields of a sample in the order in which they are recorded.
pub open spec fn fields_of(format: u64) -> Seq<Field> {
    field_if(format, FORMAT_IDENTIFIER, Field::Unused) + field_if(format, FORMAT_IP, Field::Ip)
        + field_if(format, FORMAT_TID, Field::Tid) + field_if(format, FORMAT_TIME, Field::Time)
        + field_if(format, FORMAT_ADDR, Field::Addr) + field_if(format, FORMAT_ID, Field::Unused)
        + field_if(format, FORMAT_STREAM_ID, Field::Unused) + field_if(
        format,
        FORMAT_CPU,
        Field::Cpu,
    ) + field_if(format, FORMAT_PERIOD, Field::Unused) + field_if(format, FORMAT_READ, Field::Read)
        + field_if(format, FORMAT_CALLCHAIN, Field::Callchain) + field_if(
        format,
        FORMAT_RAW,
        Field::Raw,
    ) + field_if(format, FORMAT_BRANCH_STACK, Field::BranchStack) + field_if(
        format,
        FORMAT_REGS_USER,
        Field::RegsUser,
    ) + field_if(format, FORMAT_STACK_USER, Field::StackUser) + field_if(
        format,
        FORMAT_WEIGHT | FORMAT_WEIGHT_STRUCT,
        Field::Weight,
    ) + field_if(format, FORMAT_DATA_SRC, Field::DataSrc) + field_if(
        format,
        FORMAT_TRANSACTION,
        Field::Unused,
    ) + field_if(format, FORMAT_REGS_INTR, Field::RegsIntr) + field_if(
        format,
        FORMAT_PHYS_ADDR,
        Field::PhysAddr,
    ) + field_if(format, FORMAT_AUX, Field::Aux) + field_if(format, FORMAT_CGROUP, Field::Unused)
        + field_if(format, FORMAT_DATA_PAGE_SIZE, Field::Unused) + field_if(
        format,
        FORMAT_CODE_PAGE_SIZE,
        Field::Unused,
    )
}

/// The number that bytes hold, the least significant first.
pub open spec fn little_number(bytes: Seq<u8>) -> nat
    decreases bytes.len(),
{
    if bytes.len() == 0 {
        0
    } else {
        bytes[0] as nat + 256 * little_number(bytes.skip(1))
    }
}

/// The number that bytes hold, the most significant first.
pub open spec fn big_number(bytes: Seq<u8>) -> nat
    decreases bytes.len(),
{
    if bytes.len() == 0 {
        0
    } else {
        256 * big_number(bytes.drop_last()) + bytes.last() as nat
    }
}

/// The number that bytes hold.
pub open spec fn number(bytes: Seq<u8>, big_endian: bool) -> nat {
    if big_endian {
        big_number(bytes)
    } else {
        little_number(bytes)
    }
}

/// The number of `width` bytes at a position.
pub open spec fn number_at(data: Seq<u8>, pos: int, width: int, big_endian: bool) -> nat {
    number(data.subrange(pos, pos + width), big_endian)
}

/// A number of 32 bits read as a signed one.
pub open spec fn signed(n: nat) -> i32 {
    if n >= 0x8000_0000 {
        (n - 0x1_0000_0000) as i32
    } else {
        n as i32
    }
}

/// Whether `width` bytes stand at a position.
pub open spec fn fits(data: Seq<u8>, pos: int, width: int) -> bool {
    0 <= pos && pos + width <= data.len()
}

/// A position and the sample read up to it, or why there is none.
pub type Progress = Result<(int, SampleFacts), SampleError>;

/// A position, or why there is none.
pub type Place = Result<int, SampleError>;

/// The position after `width` bytes.
pub open spec fn skipped(data: Seq<u8>, pos: int, width: int) -> Place {
    if fits(data, pos, width) {
        Ok(pos + width)
    } else {
        Err(SampleError::Truncated)
    }
}

/// The position after an array of `count` items.
pub open spec fn array_skipped(data: Seq<u8>, pos: int, count: int, item: int) -> Place {
    if count * item > usize::MAX {
        Err(SampleError::ArrayTooLarge)
    } else {
        skipped(data, pos, count * item)
    }
}

/// The position after a number, if a flag announces one.
pub open spec fn skipped_if(data: Seq<u8>, place: Place, format: u64, flag: u64) -> Place {
    match place {
        Ok(pos) => if announces(format, flag) {
            skipped(data, pos, 8)
        } else {
            Ok(pos)
        },
        Err(e) => Err(e),
    }
}

/// The position after the values of a counter or of a group of counters.
pub open spec fn read_values_skipped(data: Seq<u8>, pos: int, layout: SampleLayout) -> Place {
    let format = layout.read_format;
    let after_times = skipped_if(
        data,
        skipped_if(data, skipped(data, pos, 8), format, READ_TOTAL_TIME_ENABLED),
        format,
        READ_TOTAL_TIME_RUNNING,
    );
    if announces(format, READ_GROUP) {
        match after_times {
            Ok(p) => array_skipped(
                data,
                p,
                number_at(data, pos, 8, layout.big_endian) as int,
                if announces(format, READ_ID) {
                    16
                } else {
                    8
                },
            ),
            Err(e) => Err(e),
        }
    } else {
        skipped_if(data, after_times, format, READ_ID)
    }
}

/// The numbers of the first `n` entries of a callchain.
pub open spec fn chain_at(data: Seq<u8>, pos: int, n: int, big_endian: bool) -> Seq<u64> {
    Seq::new(n as nat, |i: int| number_at(data, pos + 8 * i, 8, big_endian) as u64)
}

/// The position, where there is one, with a sample.
pub open spec fn at_place(place: Place, sample: SampleFacts) -> Progress {
    match place {
        Ok(pos) => Ok((pos, sample)),
        Err(e) => Err(e),
    }
}

/// What reading one field does.
pub open spec fn after_field(
    field: Field,
    data: Seq<u8>,
    pos: int,
    layout: SampleLayout,
    sample: SampleFacts,
) -> Progress {
    let big = layout.big_endian;
    let n = number_at(data, pos, 8, big);
    if !fits(data, pos, if field is Raw { 4 } else { 8 }) {
        Err(SampleError::Truncated)
    } else {
        match field {
            Field::Unused => Ok((pos + 8, sample)),
            Field::Ip => Ok(
                (pos + 8, SampleFacts { instruction_address: Some(n as u64), ..sample }),
            ),
            Field::Tid => Ok(
                (
                    pos + 8,
                    SampleFacts {
                        pid: Some(signed(number_at(data, pos, 4, big))),
                        tid: Some(signed(number_at(data, pos + 4, 4, big))),
                        ..sample
                    },
                ),
            ),
            Field::Time => Ok((pos + 8, SampleFacts { timestamp_ns: Some(n as u64), ..sample })),
            Field::Addr => Ok((pos + 8, SampleFacts { data_address: Some(n as u64), ..sample })),
            Field::Cpu => Ok(
                (pos + 8, SampleFacts { cpu: Some(number_at(data, pos, 4, big) as u32), ..sample }),
            ),
            Field::Read => at_place(read_values_skipped(data, pos, layout), sample),
            Field::Callchain => if n > MAX_CALLCHAIN {
                Err(SampleError::CallchainTooLong)
            } else if !fits(data, pos + 8, 8 * n as int) {
                Err(SampleError::Truncated)
            } else {
                Ok(
                    (
                        pos + 8 + 8 * n as int,
                        SampleFacts {
                            callchain: sample.callchain + chain_at(data, pos + 8, n as int, big),
                            ..sample
                        },
                    ),
                )
            },
            Field::Raw => at_place(
                skipped(data, pos + 4, number_at(data, pos, 4, big) as int),
                sample,
            ),
            Field::BranchStack => {
                let start = if layout.branch_hw_index {
                    skipped(data, pos + 8, 8)
                } else {
                    Ok(pos + 8)
                };
                match start {
                    Ok(p) => at_place(array_skipped(data, p, n as int, 24), sample),
                    Err(e) => Err(e),
                }
            },
            Field::RegsUser => at_place(
                skipped(
                    data,
                    pos + 8,
                    if n != 0 {
                        8 * layout.user_regs_count
                    } else {
                        0
                    },
                ),
                sample,
            ),
            Field::StackUser => match skipped(data, pos + 8, n as int) {
                Ok(p) => at_place(
                    skipped(
                        data,
                        p,
                        if n != 0 {
                            8
                        } else {
                            0
                        },
                    ),
                    sample,
                ),
                Err(e) => Err(e),
            },
            Field::Weight => Ok(
                (
                    pos + 8,
                    if announces(layout.sample_format, FORMAT_WEIGHT_STRUCT) {
                        SampleFacts {
                            weight: Some((n % 0x1_0000_0000) as u64),
                            instruction_latency: Some(((n / 0x1_0000_0000) % 0x1_0000) as u16),
                            ..sample
                        }
                    } else {
                        SampleFacts { weight: Some(n as u64), ..sample }
                    },
                ),
            ),
            Field::DataSrc => Ok((pos + 8, SampleFacts { data_source: n as u64, ..sample })),
            Field::RegsIntr => at_place(
                skipped(
                    data,
                    pos + 8,
                    if n != 0 {
                        8 * layout.intr_regs_count
                    } else {
                        0
                    },
                ),
                sample,
            ),
            Field::PhysAddr => Ok(
                (pos + 8, SampleFacts { physical_address: Some(n as u64), ..sample }),
            ),
            Field::Aux => at_place(skipped(data, pos + 8, n as int), sample),
        }
    }
}

/// What reading the first `n` fields gives.
pub open spec fn after_fields(
    fields: Seq<Field>,
    data: Seq<u8>,
    layout: SampleLayout,
    n: int,
) -> Progress
    decreases n,
{
    if n <= 0 {
        Ok((0int, blank()))
    } else {
        match after_fields(fields, data, layout, n - 1) {
            Ok((pos, sample)) => after_field(fields[n - 1], data, pos, layout, sample),
            Err(e) => Err(e),
        }
    }
}

/// The sample that the body of a record holds, or why it cannot be read.
pub open spec fn sample_in(data: Seq<u8>, layout: SampleLayout) -> Result<SampleFacts, SampleError> {
    match fields_in(data, layout) {
        Ok((pos, sample)) => Ok(sample),
        Err(e) => Err(e),
    }
}

/// What reading all announced fields gives.
pub open spec fn fields_in(data: Seq<u8>, layout: SampleLayout) -> Progress {
    let fields = fields_of(layout.sample_format);
    after_fields(fields, data, layout, fields.len() as int)
}

/// 256 to the power of `n`.
spec fn power256(n: nat) -> nat
    decreases n,
{
    if n == 0 {
        1
    } else {
        256 * power256((n - 1) as nat)
    }
}

proof fn lemma_little_bound(bytes: Seq<u8>)
    ensures
        little_number(bytes) < power256(bytes.len()),
    decreases bytes.len(),
{
    if bytes.len() > 0 {
        lemma_little_bound(bytes.skip(1));
    }
}

proof fn lemma_big_bound(bytes: Seq<u8>)
    ensures
        big_number(bytes) < power256(bytes.len()),
    decreases bytes.len(),
{
    if bytes.len() > 0 {
        lemma_big_bound(bytes.drop_last());
    }
}

/// Numbers of four and eight bytes fit their types.
proof fn lemma_number_bounds(bytes: Seq<u8>, big_endian: bool)
    ensures
        bytes.len() <= 8 ==> number(bytes, big_endian) <= u64::MAX,
        bytes.len() <= 4 ==> number(bytes, big_endian) <= u32::MAX,
{
    lemma_little_bound(bytes);
    lemma_big_bound(bytes);
    assert(power256(8) == 0x1_0000_0000_0000_0000) by {
        reveal_with_fuel(power256, 9);
    }
    assert(power256(4) == 0x1_0000_0000) by {
        reveal_with_fuel(power256, 5);
    }
    lemma_power_monotone(bytes.len(), 8);
    lemma_power_monotone(bytes.len(), 4);
}

proof fn lemma_power_monotone(a: nat, b: nat)
    ensures
        a <= b ==> power256(a) <= power256(b),
    decreases b,
{
    if a < b {
        lemma_power_monotone(a, (b - 1) as nat);
    }
}

/// The number of `width` bytes at a position.
pub(crate) fn read_number(data: &[u8], pos: usize, width: usize, big_endian: bool) -> (r: u64)
    requires
        width <= 8,
        pos + width <= data@.len(),
    ensures
        r == number_at(data@, pos as int, width as int, big_endian),
        width <= 4 ==> r <= u32::MAX,
{
    let size: usize = data.len();
    let ghost bytes = data@.subrange(pos as int, pos + width);
    proof {
        lemma_number_bounds(bytes, big_endian);
    }
    let mut value: u64 = 0;
    if big_endian {
        let mut k: usize = 0;
        while k < width
            invariant
                k <= width <= 8,
                pos + width <= size == data@.len(),
                bytes == data@.subrange(pos as int, pos + width),
                value == big_number(bytes.take(k as int)),
            decreases width - k,
        {
            proof {
                let next = bytes.take(k + 1);
                assert(next.drop_last() =~= bytes.take(k as int));
                assert(next.last() == data@[pos + k]);
                lemma_number_bounds(next, true);
            }
            value = value * 256 + data[pos + k] as u64;
            k += 1;
        }
        assert(bytes.take(width as int) =~= bytes);
    } else {
        let mut k: usize = width;
        assert(bytes.skip(width as int) =~= Seq::<u8>::empty());
        while k > 0
            invariant
                k <= width <= 8,
                pos + width <= size == data@.len(),
                bytes == data@.subrange(pos as int, pos + width),
                value == little_number(bytes.skip(k as int)),
            decreases k,
        {
            proof {
                let next = bytes.skip(k - 1);
                assert(next.skip(1) =~= bytes.skip(k as int));
                assert(next[0] == data@[pos + k - 1]);
                lemma_number_bounds(next, false);
            }
            value = data[pos + k - 1] as u64 + value * 256;
            k -= 1;
        }
        assert(bytes.skip(0) =~= bytes);
    }
    value
}

/// A number of 32 bits read as a signed one.
fn as_signed(n: u64) -> (r: i32)
    requires
        n <= u32::MAX,
    ensures
        r == signed(n as nat),
{
    if n >= 0x8000_0000 {
        (n as i64 - 0x1_0000_0000) as i32
    } else {
        n as i32
    }
}

/// What a place says.
spec fn place_of(r: Result<usize, SampleError>) -> Place {
    match r {
        Ok(pos) => Ok(pos as int),
        Err(e) => Err(e),
    }
}

/// The position after `width` bytes.
fn skip(data: &[u8], pos: usize, width: u64) -> (r: Result<usize, SampleError>)
    requires
        pos <= data@.len(),
    ensures
        place_of(r) == skipped(data@, pos as int, width as int),
        r matches Ok(p) ==> p <= data@.len(),
{
    let left: usize = data.len() - pos;
    if width <= left as u64 {
        Ok(pos + width as usize)
    } else {
        Err(SampleError::Truncated)
    }
}

/// The position after an array of `count` items.
fn skip_array(data: &[u8], pos: usize, count: u64, item: u64) -> (r: Result<usize, SampleError>)
    requires
        pos <= data@.len(),
        item <= 24,
    ensures
        place_of(r) == array_skipped(data@, pos as int, count as int, item as int),
        r matches Ok(p) ==> p <= data@.len(),
{
    assert(0 <= count * item <= 0xffff_ffff_ffff_ffff * 24) by (nonlinear_arith)
        requires
            0 <= count <= 0xffff_ffff_ffff_ffff,
            0 <= item <= 24,
    ;
    let width: u128 = count as u128 * item as u128;
    if width > usize::MAX as u128 {
        Err(SampleError::ArrayTooLarge)
    } else {
        skip(data, pos, width as u64)
    }
}

/// The position after a number, if a flag announces one.
fn skip_if(data: &[u8], place: Result<usize, SampleError>, format: u64, flag: u64) -> (r: Result<
    usize,
    SampleError,
>)
    requires
        place matches Ok(p) ==> p <= data@.len(),
    ensures
        place_of(r) == skipped_if(data@, place_of(place), format, flag),
        r matches Ok(p) ==> p <= data@.len(),
{
    match place {
        Ok(pos) => {
            if format & flag != 0 {
                skip(data, pos, 8)
            } else {
                Ok(pos)
            }
        },
        Err(e) => Err(e),
    }
}

/// The position after the values of a counter or of a group of counters.
fn skip_read_format(data: &[u8], pos: usize, layout: &SampleLayout) -> (r: Result<
    usize,
    SampleError,
>)
    requires
        pos + 8 <= data@.len(),
    ensures
        place_of(r) == read_values_skipped(data@, pos as int, *layout),
        r matches Ok(p) ==> p <= data@.len(),
{
    let format: u64 = layout.read_format;
    let count: u64 = read_number(data, pos, 8, layout.big_endian);
    let first = skip(data, pos, 8);
    let enabled = skip_if(data, first, format, READ_TOTAL_TIME_ENABLED);
    let times = skip_if(data, enabled, format, READ_TOTAL_TIME_RUNNING);
    if format & READ_GROUP != 0 {
        match times {
            Ok(p) => {
                let item: u64 = if format & READ_ID != 0 {
                    16
                } else {
                    8
                };
                skip_array(data, p, count, item)
            },
            Err(e) => Err(e),
        }
    } else {
        skip_if(data, times, format, READ_ID)
    }
}

/// Reads one field.
fn read_field(
    field: Field,
    data: &[u8],
    pos: usize,
    layout: &SampleLayout,
    sample: &mut ParsedMemorySample,
) -> (r: Result<usize, SampleError>)
    requires
        pos <= data@.len(),
    ensures
        match r {
            Ok(p) => p <= data@.len() && after_field(
                field,
                data@,
                pos as int,
                *layout,
                old(sample).facts(),
            ) == Ok::<(int, SampleFacts), SampleError>((p as int, final(sample).facts())),
            Err(e) => after_field(field, data@, pos as int, *layout, old(sample).facts()) == Err::<
                (int, SampleFacts),
                SampleError,
            >(e),
        },
{
    let big: bool = layout.big_endian;
    let left: usize = data.len() - pos;
    let raw: bool = match field {
        Field::Raw => true,
        _ => false,
    };
    if left < 4 || (left < 8 && !raw) {
        return Err(SampleError::Truncated);
    }
    if raw {
        let size: u64 = read_number(data, pos, 4, big);
        return skip(data, pos + 4, size);
    }
    let n: u64 = read_number(data, pos, 8, big);
    let next: usize = pos + 8;
    match field {
        Field::Raw | Field::Unused => Ok(next),
        Field::Ip => {
            sample.instruction_address = Some(n);
            Ok(next)
        },
        Field::Tid => {
            let pid: u64 = read_number(data, pos, 4, big);
            let tid: u64 = read_number(data, pos + 4, 4, big);
            sample.pid = Some(as_signed(pid));
            sample.tid = Some(as_signed(tid));
            Ok(next)
        },
        Field::Time => {
            sample.timestamp_ns = Some(n);
            Ok(next)
        },
        Field::Addr => {
            sample.data_address = Some(n);
            Ok(next)
        },
        Field::Cpu => {
            let cpu: u64 = read_number(data, pos, 4, big);
            sample.cpu = Some(cpu as u32);
            Ok(next)
        },
        Field::Read => skip_read_format(data, pos, layout),
        Field::Callchain => {
            if n > MAX_CALLCHAIN {
                return Err(SampleError::CallchainTooLong);
            }
            let count: usize = n as usize;
            if (left - 8) / 8 < count {
                return Err(SampleError::Truncated);
            }
            let size: usize = data.len();
            let ghost before = sample.callchain@;
            let ghost first = *sample;
            let mut i: usize = 0;
            assert(before + chain_at(data@, next as int, 0, big) =~= before);
            while i < count
                invariant
                    i <= count,
                    next + 8 * count <= size == data@.len(),
                    sample.callchain@ == before + chain_at(data@, next as int, i as int, big),
                    sample.facts() == (SampleFacts { callchain: sample.callchain@, ..first.facts() }),
                decreases count - i,
            {
                let address: u64 = read_number(data, next + 8 * i, 8, big);
                sample.callchain.push(address);
                assert(sample.callchain@ =~= before + chain_at(data@, next as int, i + 1, big));
                i += 1;
            }
            Ok(next + 8 * count)
        },
        Field::BranchStack => {
            let start: usize = if layout.branch_hw_index {
                match skip(data, next, 8) {
                    Ok(p) => p,
                    Err(e) => {
                        return Err(e);
                    },
                }
            } else {
                next
            };
            skip_array(data, start, n, 24)
        },
        Field::RegsUser => {
            let width: u64 = if n != 0 {
                8 * layout.user_regs_count as u64
            } else {
                0
            };
            skip(data, next, width)
        },
        Field::StackUser => match skip(data, next, n) {
            Ok(p) => {
                let width: u64 = if n != 0 {
                    8
                } else {
                    0
                };
                skip(data, p, width)
            },
            Err(e) => Err(e),
        },
        Field::Weight => {
            if layout.sample_format & FORMAT_WEIGHT_STRUCT != 0 {
                sample.weight = Some(n % 0x1_0000_0000);
                sample.instruction_latency = Some(((n / 0x1_0000_0000) % 0x1_0000) as u16);
            } else {
                sample.weight = Some(n);
            }
            Ok(next)
        },
        Field::DataSrc => {
            sample.data_source = n;
            Ok(next)
        },
        Field::RegsIntr => {
            let width: u64 = if n != 0 {
                8 * layout.intr_regs_count as u64
            } else {
                0
            };
            skip(data, next, width)
        },
        Field::PhysAddr => {
            sample.physical_address = Some(n);
            Ok(next)
        },
        Field::Aux => skip(data, next, n),
    }
}

/// Appends a field if the format announces it.
fn push_field(fields: &mut Vec<Field>, format: u64, flag: u64, field: Field)
    ensures
        final(fields)@ == old(fields)@ + field_if(format, flag, field),
{
    if format & flag != 0 {
        fields.push(field);
    }
    assert(fields@ =~= old(fields)@ + field_if(format, flag, field));
}

/// The fields of a sample in the order in which they are recorded.
fn list_fields(format: u64) -> (r: Vec<Field>)
    ensures
        r@ == fields_of(format),
{
    let mut fields: Vec<Field> = Vec::new();
    push_field(&mut fields, format, FORMAT_IDENTIFIER, Field::Unused);
    push_field(&mut fields, format, FORMAT_IP, Field::Ip);
    push_field(&mut fields, format, FORMAT_TID, Field::Tid);
    push_field(&mut fields, format, FORMAT_TIME, Field::Time);
    push_field(&mut fields, format, FORMAT_ADDR, Field::Addr);
    push_field(&mut fields, format, FORMAT_ID, Field::Unused);
    push_field(&mut fields, format, FORMAT_STREAM_ID, Field::Unused);
    push_field(&mut fields, format, FORMAT_CPU, Field::Cpu);
    push_field(&mut fields, format, FORMAT_PERIOD, Field::Unused);
    push_field(&mut fields, format, FORMAT_READ, Field::Read);
    push_field(&mut fields, format, FORMAT_CALLCHAIN, Field::Callchain);
    push_field(&mut fields, format, FORMAT_RAW, Field::Raw);
    push_field(&mut fields, format, FORMAT_BRANCH_STACK, Field::BranchStack);
    push_field(&mut fields, format, FORMAT_REGS_USER, Field::RegsUser);
    push_field(&mut fields, format, FORMAT_STACK_USER, Field::StackUser);
    push_field(&mut fields, format, FORMAT_WEIGHT | FORMAT_WEIGHT_STRUCT, Field::Weight);
    push_field(&mut fields, format, FORMAT_DATA_SRC, Field::DataSrc);
    push_field(&mut fields, format, FORMAT_TRANSACTION, Field::Unused);
    push_field(&mut fields, format, FORMAT_REGS_INTR, Field::RegsIntr);
    push_field(&mut fields, format, FORMAT_PHYS_ADDR, Field::PhysAddr);
    push_field(&mut fields, format, FORMAT_AUX, Field::Aux);
    push_field(&mut fields, format, FORMAT_CGROUP, Field::Unused);
    push_field(&mut fields, format, FORMAT_DATA_PAGE_SIZE, Field::Unused);
    push_field(&mut fields, format, FORMAT_CODE_PAGE_SIZE, Field::Unused);
    assert(Seq::<Field>::empty() + field_if(format, FORMAT_IDENTIFIER, Field::Unused) =~= field_if(
        format,
        FORMAT_IDENTIFIER,
        Field::Unused,
    ));
    fields
}

/// The memory sample that the body of a record holds.
pub fn parse_memory_sample(data: &[u8], layout: &SampleLayout) -> (r: Result<
    ParsedMemorySample,
    SampleError,
>)
    ensures
        match r {
            Ok(sample) => sample_in(data@, *layout) == Ok::<SampleFacts, SampleError>(
                sample.facts(),
            ),
            Err(e) => sample_in(data@, *layout) == Err::<SampleFacts, SampleError>(e),
        },
{
    match read_fields(data, layout) {
        Ok((_, sample)) => Ok(sample),
        Err(e) => Err(e),
    }
}

/// Reads all announced fields: the position after them and the sample.
pub(crate) fn read_fields(data: &[u8], layout: &SampleLayout) -> (r: Result<
    (usize, ParsedMemorySample),
    SampleError,
>)
    ensures
        match r {
            Ok((pos, sample)) => pos <= data@.len() && fields_in(data@, *layout) == Ok::<
                (int, SampleFacts),
                SampleError,
            >((pos as int, sample.facts())),
            Err(e) => fields_in(data@, *layout) == Err::<(int, SampleFacts), SampleError>(e),
        },
{
    let fields = list_fields(layout.sample_format);
    let mut sample = ParsedMemorySample {
        instruction_address: None,
        pid: None,
        tid: None,
        timestamp_ns: None,
        data_address: None,
        cpu: None,
        callchain: Vec::new(),
        weight: None,
        instruction_latency: None,
        data_source: 0,
        physical_address: None,
    };
    let mut pos: usize = 0;
    let mut n: usize = 0;
    assert(sample.facts() =~= blank());
    while n < fields.len()
        invariant
            n <= fields@.len(),
            fields@ == fields_of(layout.sample_format),
            pos <= data@.len(),
            after_fields(fields@, data@, *layout, n as int) == Ok::<
                (int, SampleFacts),
                SampleError,
            >((pos as int, sample.facts())),
        decreases fields@.len() - n,
    {
        match read_field(fields[n], data, pos, layout, &mut sample) {
            Ok(p) => {
                pos = p;
            },
            Err(e) => {
                proof {
                    lemma_error_stays(fields@, data@, *layout, n + 1, fields@.len() as int);
                }
                return Err(e);
            },
        }
        n += 1;
    }
    Ok((pos, sample))
}

/// A field that cannot be read leaves the sample unreadable.
proof fn lemma_error_stays(fields: Seq<Field>, data: Seq<u8>, layout: SampleLayout, n: int, m: int)
    requires
        0 <= n <= m,
        after_fields(fields, data, layout, n) is Err,
    ensures
        after_fields(fields, data, layout, m) == after_fields(fields, data, layout, n),
    decreases m,
{
    if n < m {
        lemma_error_stays(fields, data, layout, n, m - 1);
    }
}

/// Whether a callchain entry is a context marker instead of an address.
/// Context markers are negative numbers in the unsigned callchain.
pub open spec fn context_marker(address: u64) -> bool {
    address >= 0xffff_ffff_ffff_f001
}

/// Whether a callchain entry is a context marker instead of an address.
pub fn is_callchain_context(address: u64) -> (r: bool)
    ensures
        r == context_marker(address),
{
    address >= 0xffff_ffff_ffff_f001
}

/// Reading moves forward and stays within the record.
pub proof fn law_reading_stays_inside(
    fields: Seq<Field>,
    data: Seq<u8>,
    layout: SampleLayout,
    n: int,
)
    ensures
        after_fields(fields, data, layout, n) matches Ok((pos, sample)) ==> 0 <= pos <= data.len(),
    decreases n,
{
    if n > 0 {
        law_reading_stays_inside(fields, data, layout, n - 1);
        if let Ok((pos, sample)) = after_fields(fields, data, layout, n - 1) {
            lemma_field_inside(fields[n - 1], data, pos, layout, sample);
        }
    }
}

proof fn lemma_field_inside(
    field: Field,
    data: Seq<u8>,
    pos: int,
    layout: SampleLayout,
    sample: SampleFacts,
)
    requires
        0 <= pos <= data.len(),
    ensures
        after_field(field, data, pos, layout, sample) matches Ok((p, s)) ==> pos < p <= data.len(),
{
    let n = number_at(data, pos, 8, layout.big_endian) as int;
    if field is BranchStack {
        assert(0 <= n * 24);
    }
    if field is Read {
        assert(0 <= n * 16);
        assert(0 <= n * 8);
    }
}

/// The entries of a callchain that are no addresses are the negative numbers
/// down to -4095.
pub proof fn law_context_markers(address: u64)
    ensures
        context_marker(address) <==> -4095 <= address - 0x1_0000_0000_0000_0000,
{
}

/// A number reads the same from bytes in one order as from the same bytes turned
/// round in the other order. One byte is its own value; of several the first
/// counts least in little-endian order, and the last in big-endian order.
pub proof fn law_byte_orders_mirror(bytes: Seq<u8>)
    ensures
        number(bytes, true) == number(bytes.reverse(), false),
        bytes.len() == 1 ==> number(bytes, true) == bytes[0] && number(bytes, false) == bytes[0],
        bytes.len() > 0 ==> number(bytes, false) % 256 == bytes[0] && number(bytes, true) % 256
            == bytes.last(),
    decreases bytes.len(),
{
    reveal_with_fuel(little_number, 2);
    reveal_with_fuel(big_number, 2);
    if bytes.len() > 0 {
        law_byte_orders_mirror(bytes.drop_last());
        assert(bytes.reverse().skip(1) =~= bytes.drop_last().reverse());
        assert(bytes.reverse()[0] == bytes.last());
    } else {
        assert(bytes.reverse() =~= bytes);
    }
}

/// A field takes as many bytes as it is long: numbers eight; raw data four and
/// its size; a branch stack three numbers for each branch, and one more for a
/// hardware index; registers one number each, where there are any; a user stack
/// its size and, where it is not empty, one more number; counters one number
/// each, with what is announced beside them.
pub proof fn law_fields_take_their_bytes(
    field: Field,
    data: Seq<u8>,
    pos: int,
    layout: SampleLayout,
    sample: SampleFacts,
)
    requires
        after_field(field, data, pos, layout, sample) is Ok,
    ensures
        ({
            let end = after_field(field, data, pos, layout, sample)->Ok_0.0;
            let n = number_at(data, pos, 8, layout.big_endian) as int;
            let format = layout.read_format;
            &&& field is Unused || field is Ip || field is Tid || field is Time || field is Addr
                || field is Cpu || field is Weight || field is DataSrc || field is PhysAddr ==> end
                == pos + 8
            &&& field is Callchain ==> end == pos + 8 + 8 * n
            &&& field is Raw ==> end == pos + 4 + number_at(data, pos, 4, layout.big_endian)
            &&& field is BranchStack ==> end == pos + 8 + 24 * n + if layout.branch_hw_index {
                8int
            } else {
                0
            }
            &&& field is RegsUser ==> end == pos + 8 + if n != 0 {
                8 * layout.user_regs_count
            } else {
                0
            }
            &&& field is RegsIntr ==> end == pos + 8 + if n != 0 {
                8 * layout.intr_regs_count
            } else {
                0
            }
            &&& field is StackUser ==> end == pos + 8 + if n != 0 {
                n + 8
            } else {
                0
            }
            &&& field is Aux ==> end == pos + 8 + n
            &&& field is Read ==> end == pos + 8 + (if format & 0x1 != 0 {
                8int
            } else {
                0
            }) + (if format & 0x2 != 0 {
                8int
            } else {
                0
            }) + (if format & 0x8 != 0 {
                n * (if format & 0x4 != 0 {
                    16int
                } else {
                    8
                })
            } else if format & 0x4 != 0 {
                8
            } else {
                0
            })
        }),
{
}

/// Each number of a sample goes into the field that it is, and no other field
/// changes.
pub proof fn law_fields_keep_apart(
    data: Seq<u8>,
    pos: int,
    layout: SampleLayout,
    sample: SampleFacts,
)
    requires
        0 <= pos,
        pos + 8 <= data.len(),
    ensures
        ({
            let n = number_at(data, pos, 8, layout.big_endian);
            let low = number_at(data, pos, 4, layout.big_endian);
            let high = number_at(data, pos + 4, 4, layout.big_endian);
            &&& after_field(Field::Ip, data, pos, layout, sample) == Ok::<
                (int, SampleFacts),
                SampleError,
            >((pos + 8, SampleFacts { instruction_address: Some(n as u64), ..sample }))
            &&& after_field(Field::Time, data, pos, layout, sample) == Ok::<
                (int, SampleFacts),
                SampleError,
            >((pos + 8, SampleFacts { timestamp_ns: Some(n as u64), ..sample }))
            &&& after_field(Field::Addr, data, pos, layout, sample) == Ok::<
                (int, SampleFacts),
                SampleError,
            >((pos + 8, SampleFacts { data_address: Some(n as u64), ..sample }))
            &&& after_field(Field::PhysAddr, data, pos, layout, sample) == Ok::<
                (int, SampleFacts),
                SampleError,
            >((pos + 8, SampleFacts { physical_address: Some(n as u64), ..sample }))
            &&& after_field(Field::DataSrc, data, pos, layout, sample) == Ok::<
                (int, SampleFacts),
                SampleError,
            >((pos + 8, SampleFacts { data_source: n as u64, ..sample }))
            &&& after_field(Field::Cpu, data, pos, layout, sample) == Ok::<
                (int, SampleFacts),
                SampleError,
            >((pos + 8, SampleFacts { cpu: Some(low as u32), ..sample }))
            &&& low < 0x8000_0000 && high < 0x8000_0000 ==> after_field(
                Field::Tid,
                data,
                pos,
                layout,
                sample,
            ) == Ok::<(int, SampleFacts), SampleError>(
                (
                    pos + 8,
                    SampleFacts { pid: Some(low as i32), tid: Some(high as i32), ..sample },
                ),
            )
        }),
{
}

}
