//! Source positions read from the debug data of a library.
use crate::profile::resolved::ResolvedLibrary;
use crate::profile::symbols::SourcePoint;
use crate::text;
use object::{Object, ObjectSegment};
use vstd::prelude::*;

verus! {

/// Per-instruction source information read directly from a recorded library's DWARF data.
#[derive(Debug, Clone, PartialEq, Eq)]
pub struct DwarfAddressInfo {
    pub symbol_name: Option<String>,
    pub symbol_start_address: Option<u64>,
    /// Debug frames ordered from the outer function to the deepest inline frame.
    pub frames: Vec<DwarfSourceFrame>,
}

/// A source position of an instruction.
#[derive(Debug, Clone, PartialEq, Eq)]
pub struct DwarfSourceFrame {
    pub function_name: String,
    pub file: Option<String>,
    pub line: Option<u32>,
}

impl DwarfSourceFrame {
    /// What the frame says.
    pub open spec fn point(self) -> SourcePoint {
        SourcePoint {
            function_name: self.function_name@,
            file: text::opt(self.file),
            line: self.line,
        }
    }
}

/// What a list of frames says.
pub open spec fn points(s: Seq<DwarfSourceFrame>) -> Seq<SourcePoint> {
    Seq::new(s.len(), |i: int| s[i].point())
}

/// What `addr2line::demangle_auto` makes of a symbol name in a language, given
/// by its DWARF number, or in none that is known.
pub uninterp spec fn demangled_in(name: Seq<char>, language: Option<u16>) -> Seq<char>;

/// `addr2line::demangle_auto`: the readable form of a symbol name, or the name
/// itself where it has none. With a language only its scheme is tried. The
/// contract names the result.
#[verifier::external_body]
fn demangle_in(name: &str, language: Option<u16>) -> (r: String)
    ensures
        r@ == demangled_in(name@, language),
{
    let language = language.map(addr2line::gimli::DwLang);
    addr2line::demangle_auto(std::borrow::Cow::Borrowed(name), language).into_owned()
}

/// The readable form of a symbol name of which no language is known.
pub open spec fn demangled(name: Seq<char>) -> Seq<char> {
    demangled_in(name, None)
}

/// A source frame as debug data gives it: the name of its function as the data
/// spells it, and the DWARF number of the language.
#[derive(Debug, Clone, PartialEq, Eq)]
pub struct RawDwarfFrame {
    pub function_name: Option<String>,
    pub language: Option<u16>,
    pub file: Option<String>,
    pub line: Option<u32>,
}

/// A source frame with the readable name of its function.
#[derive(Debug, Clone, PartialEq, Eq)]
pub struct NamedDwarfFrame {
    pub function_name: Option<String>,
    pub file: Option<String>,
    pub line: Option<u32>,
}

/// A source frame, as mathematics.
#[verifier::ext_equal]
pub struct FrameFacts {
    pub function_name: Option<Seq<char>>,
    pub file: Option<Seq<char>>,
    pub line: Option<u32>,
}

impl NamedDwarfFrame {
    /// What the frame says.
    pub open spec fn facts(self) -> FrameFacts {
        FrameFacts {
            function_name: text::opt(self.function_name),
            file: text::opt(self.file),
            line: self.line,
        }
    }
}

impl RawDwarfFrame {
    /// What the frame says, its function in readable form.
    pub open spec fn facts(self) -> FrameFacts {
        FrameFacts {
            function_name: match self.function_name {
                Some(name) => Some(demangled_in(name@, self.language)),
                None => None,
            },
            file: text::opt(self.file),
            line: self.line,
        }
    }
}

/// What a list of named frames says.
pub open spec fn named_facts(s: Seq<NamedDwarfFrame>) -> Seq<FrameFacts> {
    Seq::new(s.len(), |i: int| s[i].facts())
}

/// What a list of raw frames says.
pub open spec fn raw_facts(s: Seq<RawDwarfFrame>) -> Seq<FrameFacts> {
    Seq::new(s.len(), |i: int| s[i].facts())
}

/// The name of a frame: its own, or for the outermost one the symbol's name.
pub open spec fn frame_name(
    frame: FrameFacts,
    outermost: bool,
    symbol_name: Option<Seq<char>>,
) -> Seq<char> {
    match frame.function_name {
        Some(name) => name,
        None => if !outermost {
            "<unknown inline function>"@
        } else {
            match symbol_name {
                Some(name) => name,
                None => "<unknown function>"@,
            }
        },
    }
}

/// The frames turned round: debug data lists the deepest inline frame first.
pub open spec fn outer_first(frames: Seq<FrameFacts>, symbol_name: Option<Seq<char>>) -> Seq<
    SourcePoint,
> {
    Seq::new(
        frames.len(),
        |i: int|
            {
                let frame = frames[frames.len() - 1 - i];
                SourcePoint {
                    function_name: frame_name(frame, i == 0, symbol_name),
                    file: frame.file,
                    line: frame.line,
                }
            },
    )
}

/// An address relative to a base, where it is not below it.
pub open spec fn relative_to(address: Option<u64>, base: u64) -> Option<u64> {
    match address {
        Some(address) => if address >= base {
            Some((address - base) as u64)
        } else {
            None
        },
        None => None,
    }
}

/// The address to look up for a library-relative one.
pub fn probe_address(relative_address: u64, relative_address_base: u64) -> (r: Result<u64, String>)
    ensures
        match r {
            Ok(probe) => probe == relative_address + relative_address_base,
            Err(message) => relative_address + relative_address_base > u64::MAX && message@
                == "instruction address overflowed the object address space"@,
        },
{
    match relative_address.checked_add(relative_address_base) {
        Some(probe) => Ok(probe),
        None => Err("instruction address overflowed the object address space".to_string()),
    }
}

/// What debug data says of an address: the demangled symbol and the source
/// frames from the outer function to the deepest inline frame. None where the
/// data says nothing.
pub fn describe_address(
    symbol_name: Option<String>,
    symbol_address: Option<u64>,
    relative_address_base: u64,
    frames: &Vec<NamedDwarfFrame>,
) -> (r: Option<DwarfAddressInfo>)
    ensures
        match r {
            Some(info) => {
                &&& symbol_name is Some || frames@.len() > 0
                &&& text::opt(info.symbol_name) == text::opt(symbol_name)
                &&& info.symbol_start_address == relative_to(symbol_address, relative_address_base)
                &&& points(info.frames@) == outer_first(named_facts(frames@), text::opt(symbol_name))
            },
            None => symbol_name is None && frames@.len() == 0,
        },
{
    if symbol_name.is_none() && frames.len() == 0 {
        return None;
    }
    let symbol_start_address: Option<u64> = match symbol_address {
        Some(address) => address.checked_sub(relative_address_base),
        None => None,
    };
    let ghost want = outer_first(named_facts(frames@), text::opt(symbol_name));
    let mut out: Vec<DwarfSourceFrame> = Vec::new();
    let mut n: usize = frames.len();
    while n > 0
        invariant
            n <= frames@.len(),
            want == outer_first(named_facts(frames@), text::opt(symbol_name)),
            out@.len() == frames@.len() - n,
            forall|k: int| 0 <= k < out@.len() ==> #[trigger] out@[k].point() == want[k],
        decreases n,
    {
        let frame = &frames[n - 1];
        assert(named_facts(frames@)[n - 1] == frame.facts());
        let function_name: String = match &frame.function_name {
            Some(name) => name.clone(),
            None => {
                if n < frames.len() {
                    "<unknown inline function>".to_string()
                } else {
                    match &symbol_name {
                        Some(name) => name.clone(),
                        None => "<unknown function>".to_string(),
                    }
                }
            },
        };
        out.push(
            DwarfSourceFrame { function_name, file: text::opt_clone(&frame.file), line: frame.line },
        );
        n -= 1;
    }
    assert(points(out@) =~= want);
    Some(DwarfAddressInfo { symbol_name, symbol_start_address, frames: out })
}

/// The demangled form of an optional symbol name.
pub open spec fn opt_demangled(name: Option<Seq<char>>) -> Option<Seq<char>> {
    match name {
        Some(name) => Some(demangled(name)),
        None => None,
    }
}

/// What debug data says of an address, from the names as the object file and
/// the data spell them.
pub fn describe_raw_address(
    raw_symbol_name: Option<String>,
    symbol_address: Option<u64>,
    relative_address_base: u64,
    frames: &Vec<RawDwarfFrame>,
) -> (r: Option<DwarfAddressInfo>)
    ensures
        match r {
            Some(info) => {
                &&& raw_symbol_name is Some || frames@.len() > 0
                &&& text::opt(info.symbol_name) == opt_demangled(text::opt(raw_symbol_name))
                &&& info.symbol_start_address == relative_to(symbol_address, relative_address_base)
                &&& points(info.frames@) == outer_first(
                    raw_facts(frames@),
                    opt_demangled(text::opt(raw_symbol_name)),
                )
            },
            None => raw_symbol_name is None && frames@.len() == 0,
        },
{
    let symbol_name: Option<String> = match &raw_symbol_name {
        Some(name) => Some(demangle_in(name.as_str(), None)),
        None => None,
    };
    let named = name_frames(frames);
    assert(named_facts(named@).len() == raw_facts(frames@).len());
    describe_address(symbol_name, symbol_address, relative_address_base, &named)
}

/// The frames with the readable names of their functions.
fn name_frames(frames: &Vec<RawDwarfFrame>) -> (r: Vec<NamedDwarfFrame>)
    ensures
        named_facts(r@) == raw_facts(frames@),
{
    let mut named: Vec<NamedDwarfFrame> = Vec::new();
    let mut i: usize = 0;
    while i < frames.len()
        invariant
            i <= frames@.len(),
            named@.len() == i,
            forall|k: int| 0 <= k < i ==> (#[trigger] named@[k]).facts() == frames@[k].facts(),
        decreases frames@.len() - i,
    {
        let frame = &frames[i];
        named.push(
            NamedDwarfFrame {
                function_name: match &frame.function_name {
                    Some(name) => Some(demangle_in(name.as_str(), frame.language)),
                    None => None,
                },
                file: text::opt_clone(&frame.file),
                line: frame.line,
            },
        );
        i += 1;
    }
    assert(named_facts(named@) =~= raw_facts(frames@));
    named
}

/// The hexadecimal digits of a text, in lower case.
pub open spec fn hex_digits_of(s: Seq<char>) -> Seq<char>
    decreases s.len(),
{
    if s.len() == 0 {
        Seq::empty()
    } else if text::ascii_hex_digit(s.last()) {
        hex_digits_of(s.drop_last()).push(text::ascii_lower_char(s.last()))
    } else {
        hex_digits_of(s.drop_last())
    }
}

/// The hexadecimal digits of a text, in lower case.
pub fn normalize_hex(value: &str) -> (r: String)
    ensures
        r@ == hex_digits_of(value@),
{
    let chars = text::chars_of(value);
    let mut out = String::new();
    let mut i: usize = 0;
    while i < chars.len()
        invariant
            i <= chars@.len(),
            out@ == hex_digits_of(chars@.take(i as int)),
        decreases chars@.len() - i,
    {
        assert(chars@.take(i + 1).drop_last() =~= chars@.take(i as int));
        if text::is_hex_digit(chars[i]) {
            out.push(text::lower_char(chars[i]));
        }
        i += 1;
    }
    assert(chars@.take(chars@.len() as int) =~= chars@);
    out
}

/// Bytes as hexadecimal text, two digits each.
pub open spec fn hex_of(bytes: Seq<u8>) -> Seq<char>
    decreases bytes.len(),
{
    if bytes.len() == 0 {
        Seq::empty()
    } else {
        hex_of(bytes.drop_last()) + text::padded_hex(bytes.last() as nat, 2)
    }
}

/// Bytes as hexadecimal text, two digits each.
pub fn hex_bytes(bytes: &[u8]) -> (r: String)
    ensures
        r@ == hex_of(bytes@),
{
    let mut out = String::new();
    let mut i: usize = 0;
    while i < bytes.len()
        invariant
            i <= bytes@.len(),
            out@ == hex_of(bytes@.take(i as int)),
        decreases bytes@.len() - i,
    {
        assert(bytes@.take(i + 1).drop_last() =~= bytes@.take(i as int));
        text::push_padded_hex(&mut out, bytes[i] as u64, 2);
        i += 1;
    }
    assert(bytes@.take(bytes@.len() as int) =~= bytes@);
    out
}

/// The kinds of object files whose identity can be compared.
#[derive(Debug, Clone, Copy, PartialEq, Eq, Structural)]
pub enum ObjectKind {
    Elf,
    MachO,
    Other,
}

/// A segment of an object file.
#[derive(Debug)]
pub struct Segment {
    pub name: Option<String>,
    pub address: u64,
}

/// What an object file says of itself.
#[derive(Debug)]
pub struct ObjectFile {
    pub kind: ObjectKind,
    pub elf_flags: bool,
    pub build_id: Result<Option<Vec<u8>>, String>,
    pub mach_uuid: Result<Option<Vec<u8>>, String>,
    pub segments: Vec<Segment>,
    pub relative_address_base: u64,
}

/// What an object file says of itself, as mathematics.
pub struct ObjectFacts {
    pub kind: ObjectKind,
    pub elf_flags: bool,
    pub build_id: Result<Option<Seq<u8>>, Seq<char>>,
    pub mach_uuid: Result<Option<Seq<u8>>, Seq<char>>,
    pub segments: Seq<(Option<Seq<char>>, u64)>,
    pub relative_address_base: u64,
}

/// An identity that was read, or why it could not be.
pub open spec fn identity_facts(r: Result<Option<Vec<u8>>, String>) -> Result<
    Option<Seq<u8>>,
    Seq<char>,
> {
    match r {
        Ok(Some(bytes)) => Ok(Some(bytes@)),
        Ok(None) => Ok(None),
        Err(message) => Err(message@),
    }
}

/// What a list of segments says.
pub open spec fn segment_facts(s: Seq<Segment>) -> Seq<(Option<Seq<char>>, u64)> {
    Seq::new(s.len(), |i: int| (text::opt(s[i].name), s[i].address))
}

impl ObjectFile {
    /// What the object file says.
    pub open spec fn facts(self) -> ObjectFacts {
        ObjectFacts {
            kind: self.kind,
            elf_flags: self.elf_flags,
            build_id: identity_facts(self.build_id),
            mach_uuid: identity_facts(self.mach_uuid),
            segments: segment_facts(self.segments@),
            relative_address_base: self.relative_address_base,
        }
    }
}

/// The format that `object::File::parse` and `File::format` find in the bytes
/// of an object file, or why they cannot be parsed.
pub uninterp spec fn object_format(bytes: Seq<u8>) -> Result<ObjectKind, Seq<char>>;

/// Whether `object::File::flags` gives the flags of ELF.
pub uninterp spec fn object_elf_flags(bytes: Seq<u8>) -> bool;

/// What `object::File::build_id` finds.
pub uninterp spec fn object_build_id(bytes: Seq<u8>) -> Result<Option<Seq<u8>>, Seq<char>>;

/// What `object::File::mach_uuid` finds.
pub uninterp spec fn object_mach_uuid(bytes: Seq<u8>) -> Result<Option<Seq<u8>>, Seq<char>>;

/// The names and addresses of what `object::File::segments` lists.
pub uninterp spec fn object_segments(bytes: Seq<u8>) -> Seq<(Option<Seq<char>>, u64)>;

/// What `object::File::relative_address_base` gives.
pub uninterp spec fn object_base(bytes: Seq<u8>) -> u64;

/// `object::File::parse` and `File::format`: the format of an object file, or
/// why it cannot be parsed. The contract names both.
#[verifier::external_body]
fn read_format(bytes: &[u8]) -> (r: Result<ObjectKind, String>)
    ensures
        match r {
            Ok(kind) => object_format(bytes@) == Ok::<ObjectKind, Seq<char>>(kind),
            Err(message) => object_format(bytes@) == Err::<ObjectKind, Seq<char>>(message@),
        },
{
    match object::File::parse(bytes).map_err(|e| e.to_string())?.format() {
        object::BinaryFormat::Elf => Ok(ObjectKind::Elf),
        object::BinaryFormat::MachO => Ok(ObjectKind::MachO),
        _ => Ok(ObjectKind::Other),
    }
}

/// `object::File::flags` of a file that parses: whether they are those of ELF.
/// The contract names the answer.
#[verifier::external_body]
fn read_elf_flags(bytes: &[u8]) -> (r: bool)
    requires
        object_format(bytes@) is Ok,
    ensures
        r == object_elf_flags(bytes@),
{
    matches!(object::File::parse(bytes).unwrap().flags(), object::FileFlags::Elf { .. })
}

/// `object::File::build_id` of a file that parses. The contract names what it
/// finds.
#[verifier::external_body]
fn read_build_id(bytes: &[u8]) -> (r: Result<Option<Vec<u8>>, String>)
    requires
        object_format(bytes@) is Ok,
    ensures
        identity_facts(r) == object_build_id(bytes@),
{
    let file = object::File::parse(bytes).unwrap();
    file.build_id().map(|id| id.map(|b| b.to_vec())).map_err(|e| e.to_string())
}

/// `object::File::mach_uuid` of a file that parses. The contract names what it
/// finds.
#[verifier::external_body]
fn read_mach_uuid(bytes: &[u8]) -> (r: Result<Option<Vec<u8>>, String>)
    requires
        object_format(bytes@) is Ok,
    ensures
        identity_facts(r) == object_mach_uuid(bytes@),
{
    let file = object::File::parse(bytes).unwrap();
    file.mach_uuid().map(|id| id.map(|b| b.to_vec())).map_err(|e| e.to_string())
}

/// `object::File::segments` of a file that parses: the name of each segment, if
/// it can be read, and its address. The contract names the list.
#[verifier::external_body]
fn read_segments(bytes: &[u8]) -> (r: Vec<Segment>)
    requires
        object_format(bytes@) is Ok,
    ensures
        segment_facts(r@) == object_segments(bytes@),
{
    let file = object::File::parse(bytes).unwrap();
    let segment = |s: object::Segment| Segment { name: s.name().ok().flatten().map(str::to_string), address: s.address() };
    file.segments().map(segment).collect()
}

/// `object::File::relative_address_base` of a file that parses. The contract
/// names the address.
#[verifier::external_body]
fn read_base(bytes: &[u8]) -> (r: u64)
    requires
        object_format(bytes@) is Ok,
    ensures
        r == object_base(bytes@),
{
    object::File::parse(bytes).unwrap().relative_address_base()
}

/// What the bytes of an object file say, or why they cannot be parsed.
pub open spec fn object_reading(bytes: Seq<u8>) -> Result<ObjectFacts, Seq<char>> {
    match object_format(bytes) {
        Ok(kind) => Ok(
            ObjectFacts {
                kind,
                elf_flags: object_elf_flags(bytes),
                build_id: object_build_id(bytes),
                mach_uuid: object_mach_uuid(bytes),
                segments: object_segments(bytes),
                relative_address_base: object_base(bytes),
            },
        ),
        Err(message) => Err(message),
    }
}

/// Reads an object file.
fn parse_object(bytes: &[u8]) -> (r: Result<ObjectFile, String>)
    ensures
        match r {
            Ok(file) => object_reading(bytes@) == Ok::<ObjectFacts, Seq<char>>(file.facts()),
            Err(message) => object_reading(bytes@) == Err::<ObjectFacts, Seq<char>>(message@),
        },
{
    let kind: ObjectKind = match read_format(bytes) {
        Ok(kind) => kind,
        Err(message) => {
            return Err(message);
        },
    };
    Ok(
        ObjectFile {
            kind,
            elf_flags: read_elf_flags(bytes),
            build_id: read_build_id(bytes),
            mach_uuid: read_mach_uuid(bytes),
            segments: read_segments(bytes),
            relative_address_base: read_base(bytes),
        },
    )
}

/// The first segment with a name, from `from` on.
pub open spec fn segment_named(
    segments: Seq<(Option<Seq<char>>, u64)>,
    name: Seq<char>,
    from: int,
) -> Option<u64>
    decreases segments.len() - from,
{
    if from < 0 || from >= segments.len() {
        None
    } else if segments[from].0 == Some(name) {
        Some(segments[from].1)
    } else {
        segment_named(segments, name, from + 1)
    }
}

/// What library-relative addresses are relative to: the segment `__TEXT`, for
/// ELF the first load segment, else the base that the file format gives.
pub open spec fn address_base(object: ObjectFacts) -> u64 {
    match segment_named(object.segments, "__TEXT"@, 0) {
        Some(address) => address,
        None => if object.elf_flags && object.segments.len() > 0 {
            object.segments[0].1
        } else {
            object.relative_address_base
        },
    }
}

/// What library-relative addresses are relative to.
pub fn samply_relative_address_base(object: &ObjectFile) -> (r: u64)
    ensures
        r == address_base(object.facts()),
{
    let ghost segments = object.facts().segments;
    let mut i: usize = 0;
    while i < object.segments.len()
        invariant
            i <= object.segments@.len(),
            segments == object.facts().segments,
            segment_named(segments, "__TEXT"@, 0) == segment_named(
                segments,
                "__TEXT"@,
                i as int,
            ),
        decreases object.segments@.len() - i,
    {
        if let Some(name) = &object.segments[i].name {
            if text::text_eq(name.as_str(), "__TEXT") {
                return object.segments[i].address;
            }
        }
        i += 1;
    }
    if object.elf_flags && object.segments.len() > 0 {
        object.segments[0].address
    } else {
        object.relative_address_base
    }
}

/// The code id that a library was recorded with, where it can be compared.
pub open spec fn recorded_id(library: ResolvedLibrary) -> Option<Seq<char>> {
    match library.code_id {
        Some(id) => if hex_digits_of(id@).len() > 0 {
            Some(hex_digits_of(id@))
        } else {
            None
        },
        None => None,
    }
}

/// The identity of an object file, where its kind has one.
pub open spec fn file_identity(object: ObjectFacts) -> Result<Option<Seq<char>>, Seq<char>> {
    let (id, what) = match object.kind {
        ObjectKind::Elf => (object.build_id, "failed to read ELF build id: "@),
        ObjectKind::MachO => (object.mach_uuid, "failed to read Mach-O UUID: "@),
        ObjectKind::Other => (Ok(None), Seq::empty()),
    };
    match id {
        Ok(Some(bytes)) => Ok(Some(hex_of(bytes))),
        Ok(None) => Ok(None),
        Err(message) => Err(what + message),
    }
}

/// Whether the identity of an object file was verified, and its address base;
/// or why the file is rejected.
pub open spec fn inspection(object: ObjectFacts, library: ResolvedLibrary) -> Result<
    (bool, u64),
    Seq<char>,
> {
    match recorded_id(library) {
        None => Ok((false, address_base(object))),
        Some(expected) => match file_identity(object) {
            Err(message) => Err(message),
            Ok(None) => Ok((false, address_base(object))),
            Ok(Some(actual)) => if actual == expected {
                Ok((true, address_base(object)))
            } else {
                Err(
                    "recorded code id "@ + expected + " does not match file identity "@ + actual,
                )
            },
        },
    }
}

/// A result with a text in place of a string.
pub open spec fn outcome(r: Result<(bool, u64), String>) -> Result<(bool, u64), Seq<char>> {
    match r {
        Ok(pair) => Ok(pair),
        Err(message) => Err(message@),
    }
}

/// The identity of an object file as text.
fn identity_text(id: &Result<Option<Vec<u8>>, String>, what: &str) -> (r: Result<
    Option<String>,
    String,
>)
    ensures
        match identity_facts(*id) {
            Ok(Some(bytes)) => r matches Ok(Some(text)) && text@ == hex_of(bytes),
            Ok(None) => r matches Ok(None),
            Err(message) => r matches Err(text) && text@ == what@ + message,
        },
{
    match id {
        Ok(Some(bytes)) => Ok(Some(hex_bytes(bytes.as_slice()))),
        Ok(None) => Ok(None),
        Err(message) => {
            let mut text = what.to_string();
            text::push_text(&mut text, message.as_str());
            Err(text)
        },
    }
}

/// Rejects an overwritten or otherwise stale image when the profile has a code
/// id that can be compared to the file's native identity. Other formats load
/// unverified.
pub fn check_identity(object: &ObjectFile, library: &ResolvedLibrary) -> (r: Result<
    (bool, u64),
    String,
>)
    ensures
        outcome(r) == inspection(object.facts(), *library),
{
    let base: u64 = samply_relative_address_base(object);
    let expected: String = match &library.code_id {
        Some(id) => normalize_hex(id.as_str()),
        None => {
            return Ok((false, base));
        },
    };
    if expected.as_str().is_empty() {
        return Ok((false, base));
    }
    let identity = match object.kind {
        ObjectKind::Elf => identity_text(&object.build_id, "failed to read ELF build id: "),
        ObjectKind::MachO => identity_text(&object.mach_uuid, "failed to read Mach-O UUID: "),
        ObjectKind::Other => Ok(None),
    };
    match identity {
        Err(message) => Err(message),
        Ok(None) => Ok((false, base)),
        Ok(Some(actual)) => {
            if text::text_eq(actual.as_str(), expected.as_str()) {
                Ok((true, base))
            } else {
                let mut message = "recorded code id ".to_string();
                text::push_text(&mut message, expected.as_str());
                text::push_text(&mut message, " does not match file identity ");
                text::push_text(&mut message, actual.as_str());
                Err(message)
            }
        },
    }
}

/// Inspects the bytes of an object file: whether its identity was verified
/// against the recorded code id, and what library-relative addresses are
/// relative to.
pub fn inspect_object(path: &str, bytes: &[u8], library: &ResolvedLibrary) -> (r: Result<
    (bool, u64),
    String,
>)
    ensures
        outcome(r) == match object_reading(bytes@) {
            Ok(object) => inspection(object, *library),
            Err(message) => Err("failed to parse recorded library "@ + path@ + ": "@ + message),
        },
{
    match parse_object(bytes) {
        Ok(object) => check_identity(&object, library),
        Err(reason) => {
            let mut message = "failed to parse recorded library ".to_string();
            text::push_text(&mut message, path);
            text::push_text(&mut message, ": ");
            text::push_text(&mut message, reason.as_str());
            Err(message)
        },
    }
}

/// The files to try for the debug data of a library: its debug file and then
/// its binary, each only if it is recorded, and the same file only once.
pub open spec fn candidates(library: ResolvedLibrary, same_file: bool) -> Seq<Seq<char>> {
    let debug = library.debug_path@;
    let binary = library.path@;
    if debug.len() == 0 && binary.len() == 0 {
        Seq::empty()
    } else if debug.len() == 0 {
        seq![binary]
    } else if binary.len() == 0 || same_file {
        seq![debug]
    } else {
        seq![debug, binary]
    }
}

/// The files to try for the debug data of a library. `same_file` tells whether
/// the two recorded paths name the same file.
pub fn candidate_paths(library: &ResolvedLibrary, same_file: bool) -> (r: Vec<String>)
    ensures
        text::views(r@) == candidates(*library, same_file),
{
    let mut paths: Vec<String> = Vec::new();
    if !library.debug_path.as_str().is_empty() {
        paths.push(library.debug_path.clone());
    }
    if !library.path.as_str().is_empty() && !(same_file && paths.len() > 0) {
        paths.push(library.path.clone());
    }
    assert(text::views(paths@) =~= candidates(*library, same_file));
    paths
}

/// The message for a library without a recorded file.
pub fn no_candidate_message(library: &ResolvedLibrary) -> (r: String)
    ensures
        r@ == "profile has no binary or debug-file path for library '"@ + library.name@ + "'"@,
{
    let mut message = "profile has no binary or debug-file path for library '".to_string();
    text::push_text(&mut message, library.name.as_str());
    text::push_text(&mut message, "'");
    message
}

/// The message for a library none of whose files could be loaded.
pub fn load_failure_message(library: &ResolvedLibrary, failures: &Vec<String>) -> (r: String)
    ensures
        r@ == "could not load matching DWARF for library '"@ + library.name@ + "': "@
            + text::joined(text::views(failures@), "; "@),
{
    let mut message = "could not load matching DWARF for library '".to_string();
    text::push_text(&mut message, library.name.as_str());
    text::push_text(&mut message, "': ");
    let list = text::join_text(failures, "; ");
    text::push_text(&mut message, list.as_str());
    message
}

/// Frames come out from the outer function to the deepest inline frame, one
/// for each that the debug data lists.
pub proof fn law_frames_are_outer_first(
    frames: Seq<FrameFacts>,
    symbol_name: Option<Seq<char>>,
    i: int,
)
    requires
        0 <= i < frames.len(),
    ensures
        outer_first(frames, symbol_name).len() == frames.len(),
        outer_first(frames, symbol_name)[i].line == frames[frames.len() - 1 - i].line,
        outer_first(frames, symbol_name)[i].file == frames[frames.len() - 1 - i].file,
{
}

/// A file whose identity differs from the recorded code id is rejected, and
/// only a file whose identity equals it counts as verified.
pub proof fn law_stale_files_are_rejected(object: ObjectFacts, library: ResolvedLibrary)
    ensures
        recorded_id(library) matches Some(expected) ==> (file_identity(object) matches Ok(
            Some(actual),
        ) ==> (actual != expected ==> inspection(object, library) is Err)),
        inspection(object, library) matches Ok((verified, _)) ==> (verified <==> recorded_id(
            library,
        ) is Some && file_identity(object) == Ok::<Option<Seq<char>>, Seq<char>>(
            recorded_id(library),
        )),
{
}

}
