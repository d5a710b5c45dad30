//! Where in the source a function spends its own time.
use crate::analysis::functions;
use crate::analysis::samples;
use crate::analysis::samples::AnalysisRange;
use crate::fnv;
use crate::groups;
use crate::groups::{Group, Groups, Keyed};
use crate::profile::dwarf;
use crate::profile::dwarf::DwarfAddressInfo;
use crate::profile::resolved::{
    ResolvedFrame, ResolvedInstruction, ResolvedProfile, ResolvedSample, ResolvedStack,
    ResolvedThread,
};
use crate::profile::symbols::{SourcePoint, SymbolAddressInfo};
use crate::rank;
use crate::sets;
use crate::sums;
use crate::text;
use crate::units;
use std::sync::Arc;
use vstd::prelude::*;

verus! {

/// A function at a source position, as part of a chain of inlined calls.
#[derive(Debug, Clone)]
pub struct InlineSourceFrame {
    pub function_name: String,
    pub file: Option<String>,
    pub line: Option<u32>,
}

impl InlineSourceFrame {
    /// What the frame says.
    pub open spec fn point(self) -> SourcePoint {
        SourcePoint {
            function_name: self.function_name@,
            file: text::opt(self.file),
            line: self.line,
        }
    }

    /// Another copy of the frame.
    fn copy(&self) -> (r: Self)
        ensures
            r.point() == self.point(),
    {
        InlineSourceFrame {
            function_name: self.function_name.clone(),
            file: text::opt_clone(&self.file),
            line: self.line,
        }
    }
}

/// What a list of frames says.
pub open spec fn points(s: Seq<InlineSourceFrame>) -> Seq<SourcePoint> {
    Seq::new(s.len(), |i: int| s[i].point())
}

/// The samples of a function at one instruction.
#[derive(Debug, Clone)]
pub struct ExclusiveInstructionBreakdown {
    pub library_index: Option<usize>,
    pub address: Option<u64>,
    pub library: Option<String>,
    pub library_debug_id: Option<String>,
    pub symbol_name: Option<String>,
    pub symbol_start_address: Option<u64>,
    pub symbol_size: Option<u64>,
    pub focus_file: Option<String>,
    pub focus_line: Option<u32>,
    pub source_origin: &'static str,
    pub inline_frames: Vec<InlineSourceFrame>,
    pub sample_count: usize,
    pub cpu_sample_time_ms: u64,
}

/// The samples of a function at one instruction, as mathematics.
#[verifier::ext_equal]
pub struct InstructionRow {
    pub library_index: Option<usize>,
    pub address: Option<u64>,
    pub library: Option<Seq<char>>,
    pub library_debug_id: Option<Seq<char>>,
    pub symbol_name: Option<Seq<char>>,
    pub symbol_start_address: Option<u64>,
    pub symbol_size: Option<u64>,
    pub focus_file: Option<Seq<char>>,
    pub focus_line: Option<u32>,
    pub source_origin: Seq<char>,
    pub inline_frames: Seq<SourcePoint>,
    pub sample_count: usize,
    pub cpu_sample_time: u64,
}

/// What tells instructions apart: library, address, and for a sample without
/// an address its source position.
#[verifier::ext_equal]
pub struct InstructionKey {
    pub library_index: Option<usize>,
    pub library_identity: Option<Seq<char>>,
    pub address: Option<u64>,
    pub fallback_file: Option<Seq<char>>,
    pub fallback_line: Option<u32>,
}

impl InstructionRow {
    /// The debug id of the library, or its name where there is none.
    pub open spec fn library_identity(self) -> Option<Seq<char>> {
        if self.library_debug_id is Some {
            self.library_debug_id
        } else {
            self.library
        }
    }

    /// Whether the row has a source position.
    pub open spec fn has_source(self) -> bool {
        self.focus_file is Some || self.focus_line is Some
    }

    /// The row with another sample added.
    pub open spec fn with(self, other: InstructionRow) -> InstructionRow {
        InstructionRow {
            sample_count: units::capped_count(self.sample_count + other.sample_count),
            cpu_sample_time: units::capped(self.cpu_sample_time + other.cpu_sample_time),
            ..self
        }
    }
}

/// The text of an optional text, or none.
pub open spec fn opt_hash(s: Option<Seq<char>>) -> u64 {
    match s {
        Some(s) => fnv::of_text(s),
        None => 0,
    }
}

/// A number in place of an optional number.
pub open spec fn opt_number(n: Option<u64>) -> u64 {
    match n {
        Some(n) => n,
        None => 0,
    }
}

impl Keyed for ExclusiveInstructionBreakdown {
    type Model = InstructionRow;

    type Key = InstructionKey;

    open spec fn model(&self) -> InstructionRow {
        InstructionRow {
            library_index: self.library_index,
            address: self.address,
            library: text::opt(self.library),
            library_debug_id: text::opt(self.library_debug_id),
            symbol_name: text::opt(self.symbol_name),
            symbol_start_address: self.symbol_start_address,
            symbol_size: self.symbol_size,
            focus_file: text::opt(self.focus_file),
            focus_line: self.focus_line,
            source_origin: self.source_origin@,
            inline_frames: points(self.inline_frames@),
            sample_count: self.sample_count,
            cpu_sample_time: self.cpu_sample_time_ms,
        }
    }

    open spec fn key(m: InstructionRow) -> InstructionKey {
        InstructionKey {
            library_index: m.library_index,
            library_identity: m.library_identity(),
            address: m.address,
            fallback_file: if m.address is None {
                m.focus_file
            } else {
                None
            },
            fallback_line: if m.address is None {
                m.focus_line
            } else {
                None
            },
        }
    }

    open spec fn bucket(k: InstructionKey) -> u64 {
        opt_number(k.address) ^ opt_hash(k.library_identity)
    }
}

/// The hash of an optional text.
fn hash_opt(s: &Option<String>) -> (r: u64)
    ensures
        r == opt_hash(text::opt(*s)),
{
    match s {
        Some(s) => fnv::hash_text(s.as_str()),
        None => 0,
    }
}

impl ExclusiveInstructionBreakdown {
    /// The debug id of the library, or its name where there is none.
    fn identity(&self) -> (r: &Option<String>)
        ensures
            text::opt(*r) == self.model().library_identity(),
    {
        if self.library_debug_id.is_some() {
            &self.library_debug_id
        } else {
            &self.library
        }
    }

    /// Another copy of the row.
    fn copy(&self) -> (r: Self)
        ensures
            r.model() == self.model(),
    {
        let mut inline_frames: Vec<InlineSourceFrame> = Vec::new();
        let mut i: usize = 0;
        while i < self.inline_frames.len()
            invariant
                i <= self.inline_frames@.len(),
                inline_frames@.len() == i,
                forall|k: int|
                    0 <= k < i ==> #[trigger] inline_frames@[k].point()
                        == self.inline_frames@[k].point(),
            decreases self.inline_frames@.len() - i,
        {
            inline_frames.push(self.inline_frames[i].copy());
            i += 1;
        }
        assert(points(inline_frames@) =~= points(self.inline_frames@));
        ExclusiveInstructionBreakdown {
            library_index: self.library_index,
            address: self.address,
            library: text::opt_clone(&self.library),
            library_debug_id: text::opt_clone(&self.library_debug_id),
            symbol_name: text::opt_clone(&self.symbol_name),
            symbol_start_address: self.symbol_start_address,
            symbol_size: self.symbol_size,
            focus_file: text::opt_clone(&self.focus_file),
            focus_line: self.focus_line,
            source_origin: self.source_origin,
            inline_frames,
            sample_count: self.sample_count,
            cpu_sample_time_ms: self.cpu_sample_time_ms,
        }
    }
}

/// Whether two optional numbers are equal.
fn same_number(a: Option<u64>, b: Option<u64>) -> (r: bool)
    ensures
        r == (a == b),
{
    match (a, b) {
        (Some(x), Some(y)) => x == y,
        (None, None) => true,
        _ => false,
    }
}

/// Whether two optional lines are equal.
fn same_line(a: Option<u32>, b: Option<u32>) -> (r: bool)
    ensures
        r == (a == b),
{
    match (a, b) {
        (Some(x), Some(y)) => x == y,
        (None, None) => true,
        _ => false,
    }
}

/// Whether two optional indices are equal.
fn same_index(a: Option<usize>, b: Option<usize>) -> (r: bool)
    ensures
        r == (a == b),
{
    match (a, b) {
        (Some(x), Some(y)) => x == y,
        (None, None) => true,
        _ => false,
    }
}

impl Group<ExclusiveInstructionBreakdown> for ExclusiveInstructionBreakdown {
    type Item = InstructionRow;

    open spec fn seen(item: ExclusiveInstructionBreakdown) -> InstructionRow {
        item.model()
    }

    open spec fn key_of(item: InstructionRow) -> InstructionKey {
        Self::key(item)
    }

    open spec fn fresh(item: InstructionRow) -> InstructionRow {
        item
    }

    open spec fn grown(m: InstructionRow, item: InstructionRow) -> InstructionRow {
        m.with(item)
    }

    proof fn keeps_key(m: InstructionRow, item: InstructionRow) {
    }

    fn hash(item: &ExclusiveInstructionBreakdown) -> (r: u64) {
        let address: u64 = match item.address {
            Some(address) => address,
            None => 0,
        };
        address ^ hash_opt(item.identity())
    }

    fn accepts(&self, item: &ExclusiveInstructionBreakdown) -> (r: bool) {
        same_index(self.library_index, item.library_index) && same_number(
            self.address,
            item.address,
        ) && text::opt_eq(self.identity(), item.identity()) && (self.address.is_some()
            || (text::opt_eq(&self.focus_file, &item.focus_file) && same_line(
            self.focus_line,
            item.focus_line,
        )))
    }

    fn start(item: &ExclusiveInstructionBreakdown) -> (r: Self) {
        item.copy()
    }

    fn absorb(&mut self, item: &ExclusiveInstructionBreakdown) {
        self.sample_count = units::capped_count_add(self.sample_count, item.sample_count);
        self.cpu_sample_time_ms = units::capped_add(
            self.cpu_sample_time_ms,
            item.cpu_sample_time_ms,
        );
    }
}

/// What a frame says of the source.
pub open spec fn frame_point(frame: ResolvedFrame) -> SourcePoint {
    SourcePoint {
        function_name: frame.function_name@,
        file: text::opt(frame.file),
        line: frame.line,
    }
}

/// What a frame says of the source.
fn frame_source(frame: &ResolvedFrame) -> (r: InlineSourceFrame)
    ensures
        r.point() == frame_point(*frame),
{
    InlineSourceFrame {
        function_name: frame.function_name.clone(),
        file: text::opt_clone(&frame.file),
        line: frame.line,
    }
}

/// The symbol of a frame's instruction, if it is known.
pub open spec fn symbol_of(frame: ResolvedFrame) -> Option<SymbolAddressInfo> {
    match frame.instruction {
        Some(instruction) => match instruction.symbol {
            Some(symbol) => Some(*symbol),
            None => None,
        },
        None => None,
    }
}

/// Whether a frame executes the same instruction as another.
pub open spec fn same_instruction(frame: ResolvedFrame, at: ResolvedInstruction) -> bool {
    frame.instruction matches Some(instruction) && instruction.address == at.address && text::opt(
        instruction.library_debug_id,
    ) == text::opt(at.library_debug_id)
}

/// The number of frames at the end of the first `n` that execute an instruction.
pub open spec fn run_at_end(
    frames: Seq<Arc<ResolvedFrame>>,
    at: ResolvedInstruction,
    n: int,
) -> nat
    decreases n,
{
    if n <= 0 || !same_instruction(*frames[n - 1], at) {
        0
    } else {
        1 + run_at_end(frames, at, n - 1)
    }
}

/// The chain of inlined calls that a leaf stands in, outermost first: from its
/// symbol if that knows one, else from the frames that share its instruction.
pub open spec fn inline_points(frames: Seq<Arc<ResolvedFrame>>) -> Seq<SourcePoint> {
    let leaf = *frames.last();
    match symbol_of(leaf) {
        Some(symbol) if symbol.frames@.len() > 0 => Seq::new(
            symbol.frames@.len(),
            |i: int| symbol.frames@[i].point(),
        ),
        _ => match leaf.instruction {
            None => seq![frame_point(leaf)],
            Some(at) => {
                let n = frames.len() as int;
                let k = run_at_end(frames, at, n) as int;
                Seq::new(k as nat, |i: int| frame_point(*frames[n - k + i]))
            },
        },
    }
}

/// The symbol of a frame's instruction, if it is known.
fn symbol_in(frame: &ResolvedFrame) -> (r: Option<&SymbolAddressInfo>)
    ensures
        match r {
            Some(symbol) => symbol_of(*frame) == Some(*symbol),
            None => symbol_of(*frame) is None,
        },
{
    match &frame.instruction {
        Some(instruction) => match &instruction.symbol {
            Some(symbol) => Some(&**symbol),
            None => None,
        },
        None => None,
    }
}

/// The chain of inlined calls that a leaf stands in, outermost first.
fn inline_frames_for_leaf(stack: &ResolvedStack) -> (r: Vec<InlineSourceFrame>)
    requires
        stack.frames().len() > 0,
    ensures
        points(r@) == inline_points(stack.frames()),
{
    let ghost frames = stack.frames();
    let size: usize = stack.len();
    let leaf = stack.frame(size - 1);
    let mut out: Vec<InlineSourceFrame> = Vec::new();
    if let Some(symbol) = symbol_in(leaf) {
        if symbol.frames.len() > 0 {
            let mut i: usize = 0;
            while i < symbol.frames.len()
                invariant
                    i <= symbol.frames@.len(),
                    out@.len() == i,
                    forall|k: int|
                        0 <= k < i ==> #[trigger] out@[k].point() == symbol.frames@[k].point(),
                decreases symbol.frames@.len() - i,
            {
                let frame = &symbol.frames[i];
                out.push(
                    InlineSourceFrame {
                        function_name: frame.function_name.clone(),
                        file: text::opt_clone(&frame.file),
                        line: frame.line,
                    },
                );
                i += 1;
            }
            assert(points(out@) =~= inline_points(frames));
            return out;
        }
    }
    let at = match &leaf.instruction {
        Some(at) => at,
        None => {
            out.push(frame_source(leaf));
            assert(points(out@) =~= seq![frame_point(*leaf)]);
            return out;
        },
    };
    let mut start: usize = size;
    while start > 0
        invariant
            start <= size == frames.len(),
            frames == stack.frames(),
            run_at_end(frames, *at, size as int) == size - start + run_at_end(
                frames,
                *at,
                start as int,
            ),
        ensures
            run_at_end(frames, *at, start as int) == 0,
        decreases start,
    {
        let frame = stack.frame(start - 1);
        let same: bool = match &frame.instruction {
            Some(instruction) => instruction.address == at.address && text::opt_eq(
                &instruction.library_debug_id,
                &at.library_debug_id,
            ),
            None => false,
        };
        if !same {
            break;
        }
        start -= 1;
    }
    let mut i: usize = start;
    while i < size
        invariant
            start <= i <= size == frames.len(),
            frames == stack.frames(),
            out@.len() == i - start,
            forall|k: int|
                0 <= k < out@.len() ==> #[trigger] out@[k].point() == frame_point(
                    *frames[start + k],
                ),
        decreases size - i,
    {
        out.push(frame_source(stack.frame(i)));
        i += 1;
    }
    assert(points(out@) =~= inline_points(frames));
    out
}

/// The last of the first `n` frames that has a name.
pub open spec fn last_named(s: Seq<SourcePoint>, name: Seq<char>, n: int) -> Option<int>
    decreases n,
{
    if n <= 0 {
        None
    } else if s[n - 1].function_name == name {
        Some(n - 1)
    } else {
        last_named(s, name, n - 1)
    }
}

/// The frame whose source position stands for the function: the innermost one
/// with its name, else the outermost if the symbol has its name.
pub open spec fn focus_point(
    s: Seq<SourcePoint>,
    function: Seq<char>,
    symbol_name: Option<Seq<char>>,
) -> Option<int> {
    match last_named(s, function, s.len() as int) {
        Some(i) => Some(i),
        None => if symbol_name == Some(function) && s.len() > 0 {
            Some(0)
        } else {
            None
        },
    }
}

/// The frame whose source position stands for the function.
fn focus_source_for_frames(
    frames: &Vec<InlineSourceFrame>,
    function_name: &str,
    symbol_is_function: bool,
    Ghost(symbol_name): Ghost<Option<Seq<char>>>,
) -> (r: Option<usize>)
    requires
        symbol_is_function == (symbol_name == Some(function_name@)),
    ensures
        match r {
            Some(i) => i < frames@.len() && focus_point(
                points(frames@),
                function_name@,
                symbol_name,
            ) == Some(i as int),
            None => focus_point(points(frames@), function_name@, symbol_name) is None,
        },
{
    let ghost s = points(frames@);
    let mut n: usize = frames.len();
    while n > 0
        invariant
            n <= frames@.len(),
            s == points(frames@),
            last_named(s, function_name@, frames@.len() as int) == last_named(
                s,
                function_name@,
                n as int,
            ),
        decreases n,
    {
        assert(s[n - 1] == frames@[n - 1].point());
        if text::text_eq(frames[n - 1].function_name.as_str(), function_name) {
            return Some(n - 1);
        }
        n -= 1;
    }
    if symbol_is_function && frames.len() > 0 {
        Some(0)
    } else {
        None
    }
}

/// The first of two optional values that is there.
pub open spec fn first_of<T>(a: Option<T>, b: Option<T>) -> Option<T> {
    if a is Some {
        a
    } else {
        b
    }
}

/// What one sample with the function as its leaf says.
pub open spec fn leaf_row(
    frames: Seq<Arc<ResolvedFrame>>,
    function: Seq<char>,
    time: u64,
) -> InstructionRow {
    let leaf = *frames.last();
    let chain = inline_points(frames);
    let symbol = symbol_of(leaf);
    let symbol_name = match symbol {
        Some(symbol) => Some(symbol.symbol_name@),
        None => None,
    };
    let focus = focus_point(chain, function, symbol_name);
    let focus_file = first_of(
        match focus {
            Some(i) => chain[i].file,
            None => None,
        },
        text::opt(leaf.file),
    );
    let focus_line = first_of(
        match focus {
            Some(i) => chain[i].line,
            None => None,
        },
        leaf.line,
    );
    InstructionRow {
        library_index: match leaf.instruction {
            Some(at) => at.library_index,
            None => None,
        },
        address: match leaf.instruction {
            Some(at) => Some(at.address),
            None => None,
        },
        library: text::opt(leaf.library),
        library_debug_id: match leaf.instruction {
            Some(at) => text::opt(at.library_debug_id),
            None => None,
        },
        symbol_name,
        symbol_start_address: match symbol {
            Some(symbol) => Some(symbol.symbol_start_address),
            None => None,
        },
        symbol_size: match symbol {
            Some(symbol) => symbol.symbol_size,
            None => None,
        },
        focus_file,
        focus_line,
        source_origin: if symbol is Some {
            "sidecar"@
        } else if focus_file is Some || focus_line is Some {
            "profile"@
        } else {
            "unresolved"@
        },
        inline_frames: chain,
        sample_count: 1,
        cpu_sample_time: time,
    }
}

/// What one sample with the function as its leaf says.
fn read_leaf(stack: &ResolvedStack, function_name: &str, time: u64) -> (r:
    ExclusiveInstructionBreakdown)
    requires
        stack.frames().len() > 0,
    ensures
        r.model() == leaf_row(stack.frames(), function_name@, time),
{
    let ghost frames = stack.frames();
    let leaf = stack.frame(stack.len() - 1);
    let inline_frames = inline_frames_for_leaf(stack);
    let ghost chain = points(inline_frames@);
    let symbol = symbol_in(leaf);
    let ghost symbol_view: Option<Seq<char>> = match symbol_of(*leaf) {
        Some(symbol) => Some(symbol.symbol_name@),
        None => None,
    };
    let symbol_is_function: bool = match symbol {
        Some(symbol) => text::text_eq(symbol.symbol_name.as_str(), function_name),
        None => false,
    };
    let focus = focus_source_for_frames(
        &inline_frames,
        function_name,
        symbol_is_function,
        Ghost(symbol_view),
    );
    let mut focus_file: Option<String> = None;
    let mut focus_line: Option<u32> = None;
    if let Some(i) = focus {
        assert(chain[i as int] == inline_frames@[i as int].point());
        focus_file = text::opt_clone(&inline_frames[i].file);
        focus_line = inline_frames[i].line;
    }
    if focus_file.is_none() {
        focus_file = text::opt_clone(&leaf.file);
    }
    if focus_line.is_none() {
        focus_line = leaf.line;
    }
    let source_origin: &'static str = if symbol.is_some() {
        "sidecar"
    } else if focus_file.is_some() || focus_line.is_some() {
        "profile"
    } else {
        "unresolved"
    };
    let (library_index, address, library_debug_id) = match &leaf.instruction {
        Some(at) => (at.library_index, Some(at.address), text::opt_clone(&at.library_debug_id)),
        None => (None, None, None),
    };
    let (symbol_name, symbol_start_address, symbol_size) = match symbol {
        Some(symbol) => (
            Some(symbol.symbol_name.clone()),
            Some(symbol.symbol_start_address),
            symbol.symbol_size,
        ),
        None => (None, None, None),
    };
    ExclusiveInstructionBreakdown {
        library_index,
        address,
        library: text::opt_clone(&leaf.library),
        library_debug_id,
        symbol_name,
        symbol_start_address,
        symbol_size,
        focus_file,
        focus_line,
        source_origin,
        inline_frames,
        sample_count: 1,
        cpu_sample_time_ms: time,
    }
}


/// The samples of a function at one source line.
#[derive(Debug, Clone)]
pub struct ExclusiveSourceLineBreakdown {
    pub library: Option<String>,
    pub file: Option<String>,
    pub line: Option<u32>,
    pub instruction_addresses: Vec<u64>,
    pub sample_count: usize,
    pub cpu_sample_time_ms: u64,
}

/// The samples of a function at one source line, as mathematics.
#[verifier::ext_equal]
pub struct LineRow {
    pub library: Option<Seq<char>>,
    pub file: Option<Seq<char>>,
    pub line: Option<u32>,
    pub instruction_addresses: Seq<u64>,
    pub sample_count: usize,
    pub cpu_sample_time: u64,
}

impl ExclusiveSourceLineBreakdown {
    /// What the row says.
    pub open spec fn row(self) -> LineRow {
        LineRow {
            library: text::opt(self.library),
            file: text::opt(self.file),
            line: self.line,
            instruction_addresses: self.instruction_addresses@,
            sample_count: self.sample_count,
            cpu_sample_time: self.cpu_sample_time_ms,
        }
    }
}

/// What a list of rows says.
pub open spec fn line_rows(s: Seq<ExclusiveSourceLineBreakdown>) -> Seq<LineRow> {
    Seq::new(s.len(), |i: int| s[i].row())
}

/// A source line under construction.
pub struct SourceLineAccum {
    identity: Option<String>,
    library: Option<String>,
    file: Option<String>,
    line: Option<u32>,
    instruction_addresses: Vec<u64>,
    sample_count: usize,
    cpu_sample_time_ms: u64,
}

/// A source line with the identity of its library, as mathematics.
#[verifier::ext_equal]
pub struct LineGroup {
    pub identity: Option<Seq<char>>,
    pub row: LineRow,
}

/// What tells source lines apart.
#[verifier::ext_equal]
pub struct SourceLineKey {
    pub library_identity: Option<Seq<char>>,
    pub file: Option<Seq<char>>,
    pub line: Option<u32>,
}

/// The addresses of a line after those of an instruction.
pub open spec fn with_address(addresses: Seq<u64>, address: Option<u64>) -> Seq<u64> {
    match address {
        Some(address) => sets::inserted::<u64>(addresses, address),
        None => addresses,
    }
}

impl Keyed for SourceLineAccum {
    type Model = LineGroup;

    type Key = SourceLineKey;

    closed spec fn model(&self) -> LineGroup {
        LineGroup {
            identity: text::opt(self.identity),
            row: LineRow {
                library: text::opt(self.library),
                file: text::opt(self.file),
                line: self.line,
                instruction_addresses: self.instruction_addresses@,
                sample_count: self.sample_count,
                cpu_sample_time: self.cpu_sample_time_ms,
            },
        }
    }

    open spec fn key(m: LineGroup) -> SourceLineKey {
        SourceLineKey { library_identity: m.identity, file: m.row.file, line: m.row.line }
    }

    open spec fn bucket(k: SourceLineKey) -> u64 {
        opt_hash(k.file) ^ match k.line {
            Some(line) => line as u64,
            None => 0,
        }
    }
}

impl Group<ExclusiveInstructionBreakdown> for SourceLineAccum {
    type Item = InstructionRow;

    open spec fn seen(item: ExclusiveInstructionBreakdown) -> InstructionRow {
        item.model()
    }

    open spec fn key_of(item: InstructionRow) -> SourceLineKey {
        SourceLineKey {
            library_identity: item.library_identity(),
            file: item.focus_file,
            line: item.focus_line,
        }
    }

    open spec fn fresh(item: InstructionRow) -> LineGroup {
        LineGroup {
            identity: item.library_identity(),
            row: LineRow {
                library: item.library,
                file: item.focus_file,
                line: item.focus_line,
                instruction_addresses: with_address(Seq::empty(), item.address),
                sample_count: item.sample_count,
                cpu_sample_time: item.cpu_sample_time,
            },
        }
    }

    open spec fn grown(m: LineGroup, item: InstructionRow) -> LineGroup {
        LineGroup {
            row: LineRow {
                instruction_addresses: with_address(m.row.instruction_addresses, item.address),
                sample_count: units::capped_count(m.row.sample_count + item.sample_count),
                cpu_sample_time: units::capped(m.row.cpu_sample_time + item.cpu_sample_time),
                ..m.row
            },
            ..m
        }
    }

    proof fn keeps_key(m: LineGroup, item: InstructionRow) {
    }

    fn hash(item: &ExclusiveInstructionBreakdown) -> (r: u64) {
        let line: u64 = match item.focus_line {
            Some(line) => line as u64,
            None => 0,
        };
        hash_opt(&item.focus_file) ^ line
    }

    fn accepts(&self, item: &ExclusiveInstructionBreakdown) -> (r: bool) {
        text::opt_eq(&self.identity, item.identity()) && text::opt_eq(
            &self.file,
            &item.focus_file,
        ) && same_line(self.line, item.focus_line)
    }

    fn start(item: &ExclusiveInstructionBreakdown) -> (r: Self) {
        let mut instruction_addresses: Vec<u64> = Vec::new();
        add_address(&mut instruction_addresses, item.address);
        SourceLineAccum {
            identity: text::opt_clone(item.identity()),
            library: text::opt_clone(&item.library),
            file: text::opt_clone(&item.focus_file),
            line: item.focus_line,
            instruction_addresses,
            sample_count: item.sample_count,
            cpu_sample_time_ms: item.cpu_sample_time_ms,
        }
    }

    fn absorb(&mut self, item: &ExclusiveInstructionBreakdown) {
        add_address(&mut self.instruction_addresses, item.address);
        self.sample_count = units::capped_count_add(self.sample_count, item.sample_count);
        self.cpu_sample_time_ms = units::capped_add(
            self.cpu_sample_time_ms,
            item.cpu_sample_time_ms,
        );
    }
}

/// Adds the address of an instruction to those of a line.
fn add_address(addresses: &mut Vec<u64>, address: Option<u64>)
    ensures
        final(addresses)@ == with_address(old(addresses)@, address),
{
    if let Some(address) = address {
        let ghost before = addresses@;
        sets::insert(addresses, address);
        proof {
            assert(sets::models(before) =~= before);
            assert(sets::models(addresses@) =~= addresses@);
        }
    }
}

/// Source lines rank by falling time, then by file, then by line.
pub open spec fn by_line() -> spec_fn(LineGroup) -> Seq<i128> {
    |m: LineGroup|
        rank::descending(m.row.cpu_sample_time as int) + rank::opt_textual(m.row.file)
            + rank::opt_ascending(opt_line(m.row.line))
}

/// A line as a mathematical integer.
pub open spec fn opt_line(line: Option<u32>) -> Option<int> {
    match line {
        Some(line) => Some(line as int),
        None => None,
    }
}

/// The source lines of a list of instructions.
pub open spec fn lines_of(rows: Seq<InstructionRow>) -> Seq<LineRow> {
    let ordered = rank::ranked(
        groups::grouped::<ExclusiveInstructionBreakdown, SourceLineAccum>(rows),
        by_line(),
    );
    Seq::new(ordered.len(), |i: int| ordered[i].row)
}

/// The number of samples of the first `n` instructions that have a source position.
pub open spec fn sourced_samples(rows: Seq<InstructionRow>, n: int) -> nat
    decreases n,
{
    if n <= 0 {
        0
    } else {
        sourced_samples(rows, n - 1) + if rows[n - 1].has_source() {
            rows[n - 1].sample_count as nat
        } else {
            0nat
        }
    }
}

/// Where a function spends its own time.
#[derive(Debug)]
pub struct ExclusiveSourceBreakdown {
    pub scope_sample_count: usize,
    pub scope_time_ms: u64,
    pub exclusive_sample_count: usize,
    pub exclusive_time_ms: u64,
    pub instruction_resolved_samples: usize,
    pub source_resolved_samples: usize,
    pub sidecar_symbolicated_samples: usize,
    pub matched_thread_indices: Vec<usize>,
    pub instructions: Vec<ExclusiveInstructionBreakdown>,
    pub source_lines: Vec<ExclusiveSourceLineBreakdown>,
}

impl Default for ExclusiveSourceBreakdown {
    /// No samples.
    fn default() -> (r: Self)
        ensures
            r.scope_sample_count == 0,
            r.scope_time_ms == 0,
            r.exclusive_sample_count == 0,
            r.exclusive_time_ms == 0,
            r.instruction_resolved_samples == 0,
            r.source_resolved_samples == 0,
            r.sidecar_symbolicated_samples == 0,
            r.matched_thread_indices@.len() == 0,
            r.instructions@.len() == 0,
            r.source_lines@.len() == 0,
    {
        ExclusiveSourceBreakdown {
            scope_sample_count: 0,
            scope_time_ms: 0,
            exclusive_sample_count: 0,
            exclusive_time_ms: 0,
            instruction_resolved_samples: 0,
            source_resolved_samples: 0,
            sidecar_symbolicated_samples: 0,
            matched_thread_indices: Vec::new(),
            instructions: Vec::new(),
            source_lines: Vec::new(),
        }
    }
}

/// The source lines of a list of instructions, and how many samples have one.
fn collect_lines(instructions: &Vec<ExclusiveInstructionBreakdown>) -> (r: (
    Vec<ExclusiveSourceLineBreakdown>,
    usize,
))
    ensures
        line_rows(r.0@) == lines_of(groups::models(instructions@)),
        r.1 == units::capped_count(
            sourced_samples(groups::models(instructions@), instructions@.len() as int) as int,
        ),
{
    let ghost rows = groups::models(instructions@);
    let mut accums: Groups<SourceLineAccum> = Groups::new();
    let mut resolved: usize = 0;
    let mut i: usize = 0;
    assert(rows.take(0) =~= Seq::<InstructionRow>::empty());
    while i < instructions.len()
        invariant
            i <= instructions@.len(),
            rows == groups::models(instructions@),
            accums.well_formed(),
            accums@ == groups::grouped::<ExclusiveInstructionBreakdown, SourceLineAccum>(
                rows.take(i as int),
            ),
            resolved == units::capped_count(sourced_samples(rows, i as int) as int),
        decreases instructions@.len() - i,
    {
        let instruction = &instructions[i];
        assert(rows[i as int] == instruction.model());
        if instruction.focus_file.is_some() || instruction.focus_line.is_some() {
            resolved = units::capped_count_add(resolved, instruction.sample_count);
        }
        accums.add(instruction);
        assert(rows.take(i + 1).drop_last() =~= rows.take(i as int));
        i += 1;
    }
    assert(rows.take(rows.len() as int) =~= rows);
    let ghost all = accums@;
    let accums = accums.finish();
    let mut keys: Vec<Vec<i128>> = Vec::new();
    let mut i: usize = 0;
    while i < accums.len()
        invariant
            i <= accums@.len(),
            all == groups::models(accums@),
            keys@.len() == i,
            forall|k: int| 0 <= k < i ==> #[trigger] keys@[k]@ == by_line()(all[k]),
        decreases accums@.len() - i,
    {
        let accum = &accums[i];
        let line: Option<u64> = match accum.line {
            Some(line) => Some(line as u64),
            None => None,
        };
        let mut key: Vec<i128> = Vec::new();
        rank::push_descending(&mut key, accum.cpu_sample_time_ms as u128);
        rank::push_opt_textual(&mut key, &accum.file);
        rank::push_opt_ascending(&mut key, line);
        assert(key@ =~= by_line()(all[i as int]));
        keys.push(key);
        i += 1;
    }
    let order = rank::rank(&keys);
    let ghost ordered = rank::ranked(all, by_line());
    proof {
        assert(rank::key_views(keys@) =~= rank::keys_of(all, by_line()));
        rank::lemma_ranked(all, by_line(), rank::as_ints(order@));
    }
    let mut lines: Vec<ExclusiveSourceLineBreakdown> = Vec::new();
    let mut t: usize = 0;
    while t < order.len()
        invariant
            t <= order@.len() == accums@.len(),
            all == groups::models(accums@),
            ordered.len() == order@.len(),
            forall|k: int|
                0 <= k < order@.len() ==> #[trigger] order@[k] < accums@.len() && ordered[k]
                    == all[order@[k] as int],
            lines@.len() == t,
            forall|k: int| 0 <= k < t ==> #[trigger] lines@[k].row() == ordered[k].row,
        decreases order@.len() - t,
    {
        let accum = &accums[order[t]];
        assert(ordered[t as int] == accums@[order@[t as int] as int].model());
        let instruction_addresses = copy_addresses(&accum.instruction_addresses);
        lines.push(
            ExclusiveSourceLineBreakdown {
                library: text::opt_clone(&accum.library),
                file: text::opt_clone(&accum.file),
                line: accum.line,
                instruction_addresses,
                sample_count: accum.sample_count,
                cpu_sample_time_ms: accum.cpu_sample_time_ms,
            },
        );
        t += 1;
    }
    assert(line_rows(lines@) =~= lines_of(rows));
    (lines, resolved)
}

/// Another copy of a list of addresses.
fn copy_addresses(addresses: &Vec<u64>) -> (r: Vec<u64>)
    ensures
        r@ == addresses@,
{
    let mut out: Vec<u64> = Vec::new();
    let mut i: usize = 0;
    while i < addresses.len()
        invariant
            i <= addresses@.len(),
            out@ == addresses@.take(i as int),
        decreases addresses@.len() - i,
    {
        out.push(addresses[i]);
        i += 1;
    }
    assert(addresses@.take(addresses@.len() as int) =~= addresses@);
    out
}

/// Whether a breakdown lists the source lines of its instructions.
pub open spec fn lines_current(b: ExclusiveSourceBreakdown) -> bool {
    let rows = groups::models(b.instructions@);
    &&& line_rows(b.source_lines@) == lines_of(rows)
    &&& b.source_resolved_samples == units::capped_count(
        sourced_samples(rows, rows.len() as int) as int,
    )
}

/// Whether two breakdowns agree on all but their source lines.
pub open spec fn same_but_lines(a: ExclusiveSourceBreakdown, b: ExclusiveSourceBreakdown) -> bool {
    &&& a.scope_sample_count == b.scope_sample_count
    &&& a.scope_time_ms == b.scope_time_ms
    &&& a.exclusive_sample_count == b.exclusive_sample_count
    &&& a.exclusive_time_ms == b.exclusive_time_ms
    &&& a.instruction_resolved_samples == b.instruction_resolved_samples
    &&& a.sidecar_symbolicated_samples == b.sidecar_symbolicated_samples
    &&& a.matched_thread_indices == b.matched_thread_indices
}

/// Groups the instructions of a breakdown by source line again.
pub fn rebuild_source_lines(result: &mut ExclusiveSourceBreakdown)
    ensures
        lines_current(*final(result)),
        same_but_lines(*final(result), *old(result)),
        final(result).instructions == old(result).instructions,
{
    let (lines, resolved) = collect_lines(&result.instructions);
    result.source_lines = lines;
    result.source_resolved_samples = resolved;
}

/// The samples whose leaf is the function and has an instruction address.
pub open spec fn leaf_addressed(name: Seq<char>) -> spec_fn(ResolvedSample) -> bool {
    |s: ResolvedSample|
        functions::leaf_is(name)(s) && s.stack.frames().last().instruction is Some
}

/// The samples whose leaf is the function and has a known symbol.
pub open spec fn leaf_symbolicated(name: Seq<char>) -> spec_fn(ResolvedSample) -> bool {
    |s: ResolvedSample| functions::leaf_is(name)(s) && symbol_of(*s.stack.frames().last()) is Some
}

/// What the first `n` samples of a thread say of the function.
pub open spec fn thread_rows(
    thread: ResolvedThread,
    interval: u64,
    range: AnalysisRange,
    function: Seq<char>,
    n: int,
) -> Seq<InstructionRow>
    decreases n,
{
    if n <= 0 {
        Seq::empty()
    } else {
        let before = thread_rows(thread, interval, range, function, n - 1);
        let sample = thread.samples@[n - 1];
        if samples::counts(Some(range), sample) && functions::leaf_is(function)(sample) {
            before.push(
                leaf_row(
                    sample.stack.frames(),
                    function,
                    samples::time_of(thread.sample_weight_type, sample, interval),
                ),
            )
        } else {
            before
        }
    }
}

/// What the threads that the first `m` indices name say of the function.
pub open spec fn scope_rows(
    profile: ResolvedProfile,
    indices: Seq<usize>,
    range: AnalysisRange,
    function: Seq<char>,
    m: int,
) -> Seq<InstructionRow>
    decreases m,
{
    if m <= 0 {
        Seq::empty()
    } else {
        let before = scope_rows(profile, indices, range, function, m - 1);
        if indices[m - 1] < profile.threads@.len() {
            let thread = profile.threads@[indices[m - 1] as int];
            before + thread_rows(
                thread,
                profile.interval_ms,
                range,
                function,
                thread.samples@.len() as int,
            )
        } else {
            before
        }
    }
}

/// The indices among the first `m` whose thread has a counted sample that
/// satisfies a predicate.
pub open spec fn matching_threads(
    profile: ResolvedProfile,
    indices: Seq<usize>,
    range: AnalysisRange,
    keep: spec_fn(ResolvedSample) -> bool,
    m: int,
) -> Seq<usize>
    decreases m,
{
    if m <= 0 {
        Seq::empty()
    } else {
        let before = matching_threads(profile, indices, range, keep, m - 1);
        let index = indices[m - 1];
        if index < profile.threads@.len() && samples::counting(Some(range), keep)(
            profile.threads@[index as int],
        ) > 0 {
            before.push(index)
        } else {
            before
        }
    }
}

/// Instructions rank by falling time and then by address, none first.
pub open spec fn by_instruction() -> spec_fn(InstructionRow) -> Seq<i128> {
    |row: InstructionRow|
        rank::descending(row.cpu_sample_time as int) + rank::opt_ascending(
            rank::opt_int(row.address),
        )
}

/// Whether a breakdown tells where a function spends its own time.
pub open spec fn breaks_down(
    b: ExclusiveSourceBreakdown,
    profile: ResolvedProfile,
    indices: Seq<usize>,
    range: AnalysisRange,
    function: Seq<char>,
) -> bool {
    let m = indices.len() as int;
    let threads = profile.threads@;
    let window = Some(range);
    let own = functions::leaf_is(function);
    &&& b.scope_sample_count == units::capped_count(
        samples::over_threads(
            threads,
            indices,
            samples::counting(window, samples::any_sample()),
            m,
        ) as int,
    )
    &&& b.scope_time_ms == units::capped(
        samples::over_threads(
            threads,
            indices,
            samples::timing(profile.interval_ms, window, samples::any_sample()),
            m,
        ) as int,
    )
    &&& b.exclusive_sample_count == units::capped_count(
        samples::over_threads(threads, indices, samples::counting(window, own), m) as int,
    )
    &&& b.exclusive_time_ms == units::capped(
        samples::over_threads(
            threads,
            indices,
            samples::timing(profile.interval_ms, window, own),
            m,
        ) as int,
    )
    &&& b.instruction_resolved_samples == units::capped_count(
        samples::over_threads(
            threads,
            indices,
            samples::counting(window, leaf_addressed(function)),
            m,
        ) as int,
    )
    &&& b.sidecar_symbolicated_samples == units::capped_count(
        samples::over_threads(
            threads,
            indices,
            samples::counting(window, leaf_symbolicated(function)),
            m,
        ) as int,
    )
    &&& b.matched_thread_indices@ == matching_threads(profile, indices, range, own, m)
    &&& groups::models(b.instructions@) == rank::ranked(
        groups::grouped::<ExclusiveInstructionBreakdown, ExclusiveInstructionBreakdown>(
            scope_rows(profile, indices, range, function, m),
        ),
        by_instruction(),
    )
    &&& lines_current(b)
}

/// Ranks the instructions.
fn rank_instructions(instructions: Vec<ExclusiveInstructionBreakdown>) -> (r: Vec<
    ExclusiveInstructionBreakdown,
>)
    ensures
        groups::models(r@) == rank::ranked(groups::models(instructions@), by_instruction()),
{
    let ghost all = instructions@;
    let ghost rows = groups::models(all);
    let mut keys: Vec<Vec<i128>> = Vec::new();
    let mut i: usize = 0;
    while i < instructions.len()
        invariant
            i <= instructions@.len(),
            all == instructions@,
            rows == groups::models(all),
            keys@.len() == i,
            forall|k: int| 0 <= k < i ==> #[trigger] keys@[k]@ == by_instruction()(rows[k]),
        decreases instructions@.len() - i,
    {
        let mut key: Vec<i128> = Vec::new();
        rank::push_descending(&mut key, instructions[i].cpu_sample_time_ms as u128);
        rank::push_opt_ascending(&mut key, instructions[i].address);
        assert(key@ =~= by_instruction()(rows[i as int]));
        keys.push(key);
        i += 1;
    }
    let ghost ks = rank::key_views(keys@);
    let sorted = rank::arrange(instructions, &keys);
    proof {
        assert(ks =~= rank::keys_of(rows, by_instruction()));
        let f = |row: ExclusiveInstructionBreakdown| row.model();
        rank::lemma_arranged_map(all, ks, f);
        assert(groups::models(sorted@) =~= Seq::new(
            all.len(),
            |p: int| f(rank::arranged(all, ks)[p]),
        ));
        assert(rows =~= Seq::new(all.len(), |p: int| f(all[p])));
    }
    sorted
}

/// Where a function spends its own time: by instruction and by source line,
/// over the samples that have it as their leaf.
pub fn exclusive_source_breakdown(
    profile: &ResolvedProfile,
    thread_indices: &Vec<usize>,
    range: &AnalysisRange,
    function_name: &str,
) -> (r: ExclusiveSourceBreakdown)
    ensures
        breaks_down(r, *profile, thread_indices@, *range, function_name@),
{
    let ghost f = function_name@;
    let ghost window = Some(*range);
    let ghost own = functions::leaf_is(f);
    let ghost any = samples::any_sample();
    let ghost addressed = leaf_addressed(f);
    let ghost symbolicated = leaf_symbolicated(f);
    let ghost interval = profile.interval_ms;
    let ghost threads = profile.threads@;
    let ghost indices = thread_indices@;
    let mut result = ExclusiveSourceBreakdown::default();
    let mut matched: Vec<usize> = Vec::new();
    let mut instructions: Groups<ExclusiveInstructionBreakdown> = Groups::new();
    let mut m: usize = 0;
    while m < thread_indices.len()
        invariant
            m <= thread_indices@.len(),
            f == function_name@,
            window == Some(*range),
            own == functions::leaf_is(f),
            any == samples::any_sample(),
            addressed == leaf_addressed(f),
            symbolicated == leaf_symbolicated(f),
            interval == profile.interval_ms,
            threads == profile.threads@,
            indices == thread_indices@,
            result.scope_sample_count == units::capped_count(
                samples::over_threads(
                    threads,
                    indices,
                    samples::counting(window, any),
                    m as int,
                ) as int,
            ),
            result.scope_time_ms == units::capped(
                samples::over_threads(
                    threads,
                    indices,
                    samples::timing(interval, window, any),
                    m as int,
                ) as int,
            ),
            result.exclusive_sample_count == units::capped_count(
                samples::over_threads(
                    threads,
                    indices,
                    samples::counting(window, own),
                    m as int,
                ) as int,
            ),
            result.exclusive_time_ms == units::capped(
                samples::over_threads(
                    threads,
                    indices,
                    samples::timing(interval, window, own),
                    m as int,
                ) as int,
            ),
            result.instruction_resolved_samples == units::capped_count(
                samples::over_threads(
                    threads,
                    indices,
                    samples::counting(window, addressed),
                    m as int,
                ) as int,
            ),
            result.sidecar_symbolicated_samples == units::capped_count(
                samples::over_threads(
                    threads,
                    indices,
                    samples::counting(window, symbolicated),
                    m as int,
                ) as int,
            ),
            matched@ == matching_threads(*profile, indices, *range, own, m as int),
            instructions.well_formed(),
            instructions@ == groups::grouped::<
                ExclusiveInstructionBreakdown,
                ExclusiveInstructionBreakdown,
            >(scope_rows(*profile, indices, *range, f, m as int)),
        decreases thread_indices@.len() - m,
    {
        let index: usize = thread_indices[m];
        if index < profile.threads.len() {
            let thread = &profile.threads[index];
            let mut thread_matched: bool = false;
            let ghost before = result;
            let ghost base = scope_rows(*profile, indices, *range, f, m as int);
            let mut i: usize = 0;
            proof {
                assert(base + thread_rows(*thread, interval, *range, f, 0) =~= base);
            }
            while i < thread.samples.len()
                invariant
                    i <= thread.samples@.len(),
                    f == function_name@,
                    window == Some(*range),
                    own == functions::leaf_is(f),
                    any == samples::any_sample(),
                    addressed == leaf_addressed(f),
                    symbolicated == leaf_symbolicated(f),
                    interval == profile.interval_ms,
                    result.scope_sample_count == units::capped_count(
                        before.scope_sample_count + samples::count_where(
                            thread.samples@,
                            window,
                            any,
                            i as int,
                        ),
                    ),
                    result.scope_time_ms == units::capped(
                        before.scope_time_ms + samples::time_where(
                            *thread,
                            interval,
                            window,
                            any,
                            i as int,
                        ),
                    ),
                    result.exclusive_sample_count == units::capped_count(
                        before.exclusive_sample_count + samples::count_where(
                            thread.samples@,
                            window,
                            own,
                            i as int,
                        ),
                    ),
                    result.exclusive_time_ms == units::capped(
                        before.exclusive_time_ms + samples::time_where(
                            *thread,
                            interval,
                            window,
                            own,
                            i as int,
                        ),
                    ),
                    result.instruction_resolved_samples == units::capped_count(
                        before.instruction_resolved_samples + samples::count_where(
                            thread.samples@,
                            window,
                            addressed,
                            i as int,
                        ),
                    ),
                    result.sidecar_symbolicated_samples == units::capped_count(
                        before.sidecar_symbolicated_samples + samples::count_where(
                            thread.samples@,
                            window,
                            symbolicated,
                            i as int,
                        ),
                    ),
                    thread_matched == (samples::count_where(
                        thread.samples@,
                        window,
                        own,
                        i as int,
                    ) > 0),
                    instructions.well_formed(),
                    instructions@ == groups::grouped::<
                        ExclusiveInstructionBreakdown,
                        ExclusiveInstructionBreakdown,
                    >(base + thread_rows(*thread, interval, *range, f, i as int)),
                decreases thread.samples@.len() - i,
            {
                let sample = &thread.samples[i];
                if range.contains(sample) {
                    let time: u64 = samples::sample_time_ms(thread, sample, profile.interval_ms);
                    result.scope_sample_count = units::capped_count_add(
                        result.scope_sample_count,
                        1,
                    );
                    result.scope_time_ms = units::capped_add(result.scope_time_ms, time);
                    if !sample.stack.is_empty() {
                        let leaf = sample.stack.frame(sample.stack.len() - 1);
                        assert(sample.stack.names().last() == leaf.function_name@);
                        if text::text_eq(leaf.function_name.as_str(), function_name) {
                            assert(own(*sample));
                            thread_matched = true;
                            result.exclusive_sample_count = units::capped_count_add(
                                result.exclusive_sample_count,
                                1,
                            );
                            result.exclusive_time_ms = units::capped_add(
                                result.exclusive_time_ms,
                                time,
                            );
                            if leaf.instruction.is_some() {
                                result.instruction_resolved_samples = units::capped_count_add(
                                    result.instruction_resolved_samples,
                                    1,
                                );
                            }
                            if symbol_in(leaf).is_some() {
                                result.sidecar_symbolicated_samples = units::capped_count_add(
                                    result.sidecar_symbolicated_samples,
                                    1,
                                );
                            }
                            let row = read_leaf(&sample.stack, function_name, time);
                            instructions.add(&row);
                            proof {
                                let next = base + thread_rows(*thread, interval, *range, f, i + 1);
                                assert(next.drop_last() =~= base + thread_rows(
                                    *thread,
                                    interval,
                                    *range,
                                    f,
                                    i as int,
                                ));
                                assert(next.last() == row.model());
                            }
                        }
                    }
                }
                i += 1;
            }
            if thread_matched {
                matched.push(index);
            }
        }
        m += 1;
    }
    result.matched_thread_indices = matched;
    result.instructions = rank_instructions(instructions.finish());
    rebuild_source_lines(&mut result);
    result
}


/// What debug data says of an address, as mathematics.
pub struct AddressFacts {
    pub symbol_name: Option<Seq<char>>,
    pub symbol_start_address: Option<u64>,
    pub frames: Seq<SourcePoint>,
}

/// What debug data says of an address.
pub open spec fn facts(info: DwarfAddressInfo) -> AddressFacts {
    AddressFacts {
        symbol_name: text::opt(info.symbol_name),
        symbol_start_address: info.symbol_start_address,
        frames: dwarf::points(info.frames@),
    }
}

/// An instruction after debug data for its address was found. A symbol that
/// the data names replaces the known one; source frames replace the chain of
/// inlined calls and, where one stands for the function, its position.
pub open spec fn with_facts(row: InstructionRow, function: Seq<char>, info: AddressFacts)
    -> InstructionRow {
    let outer = row.symbol_name == Some(function) || info.symbol_name == Some(function);
    let named = InstructionRow {
        symbol_name: first_of(info.symbol_name, row.symbol_name),
        symbol_start_address: first_of(info.symbol_start_address, row.symbol_start_address),
        ..row
    };
    if info.frames.len() == 0 {
        named
    } else {
        let focus = focus_point(
            info.frames,
            function,
            if outer {
                Some(function)
            } else {
                None
            },
        );
        InstructionRow {
            inline_frames: info.frames,
            focus_file: match focus {
                Some(i) => info.frames[i].file,
                None => named.focus_file,
            },
            focus_line: match focus {
                Some(i) => info.frames[i].line,
                None => named.focus_line,
            },
            source_origin: "dwarf"@,
            ..named
        }
    }
}

/// Whether an optional text is a given one.
fn opt_is(a: &Option<String>, b: &str) -> (r: bool)
    ensures
        r == (text::opt(*a) == Some(b@)),
{
    match a {
        Some(a) => text::text_eq(a.as_str(), b),
        None => false,
    }
}

/// Puts what debug data says of its address into an instruction.
pub fn apply_dwarf_address_info(
    instruction: &mut ExclusiveInstructionBreakdown,
    function_name: &str,
    address_info: &DwarfAddressInfo,
)
    ensures
        final(instruction).model() == with_facts(
            old(instruction).model(),
            function_name@,
            facts(*address_info),
        ),
        final(instruction).address == old(instruction).address,
        final(instruction).sample_count == old(instruction).sample_count,
{
    let outer: bool = opt_is(&instruction.symbol_name, function_name) || opt_is(
        &address_info.symbol_name,
        function_name,
    );
    if address_info.symbol_name.is_some() {
        instruction.symbol_name = text::opt_clone(&address_info.symbol_name);
    }
    if address_info.symbol_start_address.is_some() {
        instruction.symbol_start_address = address_info.symbol_start_address;
    }
    if address_info.frames.len() == 0 {
        return;
    }
    let mut inline_frames: Vec<InlineSourceFrame> = Vec::new();
    let mut i: usize = 0;
    while i < address_info.frames.len()
        invariant
            i <= address_info.frames@.len(),
            inline_frames@.len() == i,
            forall|k: int|
                0 <= k < i ==> #[trigger] inline_frames@[k].point()
                    == address_info.frames@[k].point(),
        decreases address_info.frames@.len() - i,
    {
        let frame = &address_info.frames[i];
        inline_frames.push(
            InlineSourceFrame {
                function_name: frame.function_name.clone(),
                file: text::opt_clone(&frame.file),
                line: frame.line,
            },
        );
        i += 1;
    }
    let ghost chain = points(inline_frames@);
    assert(chain =~= dwarf::points(address_info.frames@));
    let ghost symbol_view: Option<Seq<char>> = if outer {
        Some(function_name@)
    } else {
        None
    };
    let focus = focus_source_for_frames(&inline_frames, function_name, outer, Ghost(symbol_view));
    if let Some(i) = focus {
        assert(chain[i as int] == inline_frames@[i as int].point());
        instruction.focus_file = text::opt_clone(&inline_frames[i].file);
        instruction.focus_line = inline_frames[i].line;
    }
    instruction.inline_frames = inline_frames;
    instruction.source_origin = "dwarf";
}

/// The instructions of a breakdown that one library is asked about.
#[derive(Debug)]
pub struct LibraryLookups {
    pub library_index: usize,
    pub instruction_indices: Vec<usize>,
}

/// An instruction that a library is asked about.
pub struct LookupItem {
    library_index: usize,
    instruction_index: usize,
}

impl Keyed for LibraryLookups {
    type Model = (usize, Seq<usize>);

    type Key = usize;

    open spec fn model(&self) -> (usize, Seq<usize>) {
        (self.library_index, self.instruction_indices@)
    }

    open spec fn key(m: (usize, Seq<usize>)) -> usize {
        m.0
    }

    open spec fn bucket(k: usize) -> u64 {
        k as u64
    }
}

impl Group<LookupItem> for LibraryLookups {
    type Item = (usize, usize);

    closed spec fn seen(item: LookupItem) -> (usize, usize) {
        (item.library_index, item.instruction_index)
    }

    open spec fn key_of(item: (usize, usize)) -> usize {
        item.0
    }

    open spec fn fresh(item: (usize, usize)) -> (usize, Seq<usize>) {
        (item.0, seq![item.1])
    }

    open spec fn grown(m: (usize, Seq<usize>), item: (usize, usize)) -> (usize, Seq<usize>) {
        (m.0, m.1.push(item.1))
    }

    proof fn keeps_key(m: (usize, Seq<usize>), item: (usize, usize)) {
    }

    fn hash(item: &LookupItem) -> (r: u64) {
        item.library_index as u64
    }

    fn accepts(&self, item: &LookupItem) -> (r: bool) {
        self.library_index == item.library_index
    }

    fn start(item: &LookupItem) -> (r: Self) {
        let mut instruction_indices: Vec<usize> = Vec::new();
        instruction_indices.push(item.instruction_index);
        assert(instruction_indices@ =~= seq![item.instruction_index]);
        LibraryLookups { library_index: item.library_index, instruction_indices }
    }

    fn absorb(&mut self, item: &LookupItem) {
        self.instruction_indices.push(item.instruction_index);
    }
}

/// The instructions among the first `n` that have a library and an address.
pub open spec fn lookup_items(rows: Seq<InstructionRow>, n: int) -> Seq<(usize, usize)>
    decreases n,
{
    if n <= 0 {
        Seq::empty()
    } else {
        let before = lookup_items(rows, n - 1);
        match (rows[n - 1].library_index, rows[n - 1].address) {
            (Some(library), Some(_)) => before.push((library, (n - 1) as usize)),
            _ => before,
        }
    }
}

/// Libraries rank by their index.
pub open spec fn by_library() -> spec_fn((usize, Seq<usize>)) -> Seq<i128> {
    |m: (usize, Seq<usize>)| rank::ascending(m.0 as int)
}

/// Which libraries to ask about which instructions, in the order of the libraries.
pub open spec fn lookup_plan(rows: Seq<InstructionRow>) -> Seq<(usize, Seq<usize>)> {
    rank::ranked(
        groups::grouped::<LookupItem, LibraryLookups>(lookup_items(rows, rows.len() as int)),
        by_library(),
    )
}

/// Which libraries to ask about which instructions, in the order of the libraries.
pub fn dwarf_lookups(breakdown: &ExclusiveSourceBreakdown) -> (r: Vec<LibraryLookups>)
    ensures
        groups::models(r@) == lookup_plan(groups::models(breakdown.instructions@)),
{
    let instructions = &breakdown.instructions;
    let ghost rows = groups::models(instructions@);
    let mut libraries: Groups<LibraryLookups> = Groups::new();
    let mut i: usize = 0;
    while i < instructions.len()
        invariant
            i <= instructions@.len(),
            rows == groups::models(instructions@),
            libraries.well_formed(),
            libraries@ == groups::grouped::<LookupItem, LibraryLookups>(
                lookup_items(rows, i as int),
            ),
        decreases instructions@.len() - i,
    {
        let instruction = &instructions[i];
        assert(rows[i as int] == instruction.model());
        match (instruction.library_index, instruction.address) {
            (Some(library_index), Some(_)) => {
                let item = LookupItem { library_index, instruction_index: i };
                libraries.add(&item);
                proof {
                    let next = lookup_items(rows, i + 1);
                    assert(next.drop_last() =~= lookup_items(rows, i as int));
                }
            },
            _ => {},
        }
        i += 1;
    }
    let libraries = libraries.finish();
    let ghost all = libraries@;
    let ghost plan = groups::models(all);
    let mut keys: Vec<Vec<i128>> = Vec::new();
    let mut i: usize = 0;
    while i < libraries.len()
        invariant
            i <= libraries@.len(),
            all == libraries@,
            plan == groups::models(all),
            keys@.len() == i,
            forall|k: int| 0 <= k < i ==> #[trigger] keys@[k]@ == by_library()(plan[k]),
        decreases libraries@.len() - i,
    {
        let mut key: Vec<i128> = Vec::new();
        rank::push_ascending(&mut key, libraries[i].library_index as i128);
        assert(key@ =~= by_library()(plan[i as int]));
        keys.push(key);
        i += 1;
    }
    let ghost ks = rank::key_views(keys@);
    let sorted = rank::arrange(libraries, &keys);
    proof {
        assert(ks =~= rank::keys_of(plan, by_library()));
        let f = |m: LibraryLookups| m.model();
        rank::lemma_arranged_map(all, ks, f);
        assert(groups::models(sorted@) =~= Seq::new(
            all.len(),
            |p: int| f(rank::arranged(all, ks)[p]),
        ));
        assert(plan =~= Seq::new(all.len(), |p: int| f(all[p])));
    }
    sorted
}

/// What looking up debug data came to.
#[derive(Debug)]
pub struct DwarfResolutionSummary {
    pub attempted_library_count: usize,
    pub loaded_library_count: usize,
    pub identity_verified_library_count: usize,
    pub attempted_instruction_count: usize,
    pub resolved_instruction_count: usize,
    pub resolved_sample_count: usize,
    pub binary_paths: Vec<String>,
    pub warnings: Vec<String>,
}

/// What looking up debug data came to, as mathematics.
#[verifier::ext_equal]
pub struct LookupTotals {
    pub attempted_library_count: usize,
    pub loaded_library_count: usize,
    pub identity_verified_library_count: usize,
    pub attempted_instruction_count: usize,
    pub resolved_instruction_count: usize,
    pub resolved_sample_count: usize,
    pub binary_paths: Seq<Seq<char>>,
    pub warnings: Seq<Seq<char>>,
}

impl DwarfResolutionSummary {
    /// What the summary says.
    pub open spec fn totals(self) -> LookupTotals {
        LookupTotals {
            attempted_library_count: self.attempted_library_count,
            loaded_library_count: self.loaded_library_count,
            identity_verified_library_count: self.identity_verified_library_count,
            attempted_instruction_count: self.attempted_instruction_count,
            resolved_instruction_count: self.resolved_instruction_count,
            resolved_sample_count: self.resolved_sample_count,
            binary_paths: text::views(self.binary_paths@),
            warnings: text::views(self.warnings@),
        }
    }
}

/// The number of lookups of the first `n` libraries.
pub open spec fn lookups_planned(plan: Seq<(usize, Seq<usize>)>, n: int) -> nat
    decreases n,
{
    if n <= 0 {
        0
    } else {
        lookups_planned(plan, n - 1) + plan[n - 1].1.len()
    }
}

/// A summary before the first lookup.
pub open spec fn planned_totals(plan: Seq<(usize, Seq<usize>)>) -> LookupTotals {
    LookupTotals {
        attempted_library_count: plan.len() as usize,
        loaded_library_count: 0,
        identity_verified_library_count: 0,
        attempted_instruction_count: units::capped_count(
            lookups_planned(plan, plan.len() as int) as int,
        ),
        resolved_instruction_count: 0,
        resolved_sample_count: 0,
        binary_paths: Seq::empty(),
        warnings: Seq::empty(),
    }
}

/// A summary before the first lookup.
pub fn plan_summary(plan: &Vec<LibraryLookups>) -> (r: DwarfResolutionSummary)
    ensures
        r.totals() == planned_totals(groups::models(plan@)),
{
    let ghost rows = groups::models(plan@);
    let mut attempted: usize = 0;
    let mut i: usize = 0;
    while i < plan.len()
        invariant
            i <= plan@.len(),
            rows == groups::models(plan@),
            attempted == units::capped_count(lookups_planned(rows, i as int) as int),
        decreases plan@.len() - i,
    {
        assert(rows[i as int] == plan@[i as int].model());
        attempted = units::capped_count_add(attempted, plan[i].instruction_indices.len());
        i += 1;
    }
    let summary = DwarfResolutionSummary {
        attempted_library_count: plan.len(),
        loaded_library_count: 0,
        identity_verified_library_count: 0,
        attempted_instruction_count: attempted,
        resolved_instruction_count: 0,
        resolved_sample_count: 0,
        binary_paths: Vec::new(),
        warnings: Vec::new(),
    };
    assert(summary.totals() =~= planned_totals(rows));
    summary
}

/// What a library answered for one address.
#[derive(Debug)]
pub enum LookupOutcome {
    Found(DwarfAddressInfo),
    Nothing,
    Failed(String),
}

/// What became of loading a library.
#[derive(Debug)]
pub enum LibraryOutcome {
    Failed(String),
    Loaded { path: String, identity_verified: bool, results: Vec<LookupOutcome> },
}

/// The number of warnings from which on failed lookups are no longer listed.
pub const MAX_LOOKUP_WARNINGS: usize = 20;

/// Instructions and summary after lookups.
#[verifier::ext_equal]
pub struct LookupState {
    pub rows: Seq<InstructionRow>,
    pub totals: LookupTotals,
}

/// The warning for a failed lookup.
pub open spec fn lookup_warning(library: Seq<char>, address: u64, error: Seq<char>) -> Seq<char> {
    "DWARF lookup failed for "@ + library + " at "@ + text::hex_text(address as int) + ": "@ + error
}

/// The state after one answer.
pub open spec fn after_answer(
    state: LookupState,
    function: Seq<char>,
    library: Seq<char>,
    index: usize,
    outcome: LookupOutcome,
) -> LookupState {
    if index >= state.rows.len() || state.rows[index as int].address is None {
        state
    } else {
        let row = state.rows[index as int];
        match outcome {
            LookupOutcome::Nothing => state,
            LookupOutcome::Failed(error) => if state.totals.warnings.len() < MAX_LOOKUP_WARNINGS {
                LookupState {
                    totals: LookupTotals {
                        warnings: state.totals.warnings.push(
                            lookup_warning(library, row.address.unwrap(), error@),
                        ),
                        ..state.totals
                    },
                    ..state
                }
            } else {
                state
            },
            LookupOutcome::Found(info) => {
                let found = with_facts(row, function, facts(info));
                LookupState {
                    rows: state.rows.update(index as int, found),
                    totals: if found.source_origin == "dwarf"@ {
                        LookupTotals {
                            resolved_instruction_count: units::capped_count(
                                state.totals.resolved_instruction_count + 1,
                            ),
                            resolved_sample_count: units::capped_count(
                                state.totals.resolved_sample_count + found.sample_count,
                            ),
                            ..state.totals
                        }
                    } else {
                        state.totals
                    },
                }
            },
        }
    }
}

/// The state after the first `n` answers.
pub open spec fn after_answers(
    state: LookupState,
    function: Seq<char>,
    library: Seq<char>,
    indices: Seq<usize>,
    results: Seq<LookupOutcome>,
    n: int,
) -> LookupState
    decreases n,
{
    if n <= 0 {
        state
    } else {
        after_answer(
            after_answers(state, function, library, indices, results, n - 1),
            function,
            library,
            indices[n - 1],
            results[n - 1],
        )
    }
}

/// The number of lookups that were both asked and answered.
pub open spec fn answered(indices: Seq<usize>, results: Seq<LookupOutcome>) -> int {
    if indices.len() < results.len() {
        indices.len() as int
    } else {
        results.len() as int
    }
}

/// The warning for a library that the profile lacks.
pub open spec fn missing_library_warning(index: usize) -> Seq<char> {
    "profile instruction references missing library index "@ + text::decimal(index as int)
}

/// The warning for a library whose identity could not be compared.
pub open spec fn unverified_warning(path: Seq<char>) -> Seq<char> {
    "loaded DWARF from "@ + path
        + " but its identity could not be verified against a comparable native code id"@
}

/// The state after one library.
pub open spec fn after_library(
    state: LookupState,
    profile: ResolvedProfile,
    function: Seq<char>,
    index: usize,
    indices: Seq<usize>,
    outcome: LibraryOutcome,
) -> LookupState {
    if index >= profile.libraries@.len() {
        LookupState {
            totals: LookupTotals {
                warnings: state.totals.warnings.push(missing_library_warning(index)),
                ..state.totals
            },
            ..state
        }
    } else {
        match outcome {
            LibraryOutcome::Failed(error) => LookupState {
                totals: LookupTotals {
                    warnings: state.totals.warnings.push(error@),
                    ..state.totals
                },
                ..state
            },
            LibraryOutcome::Loaded { path, identity_verified, results } => {
                let loaded = LookupState {
                    totals: LookupTotals {
                        loaded_library_count: units::capped_count(
                            state.totals.loaded_library_count + 1,
                        ),
                        identity_verified_library_count: if identity_verified {
                            units::capped_count(state.totals.identity_verified_library_count + 1)
                        } else {
                            state.totals.identity_verified_library_count
                        },
                        warnings: if identity_verified {
                            state.totals.warnings
                        } else {
                            state.totals.warnings.push(unverified_warning(path@))
                        },
                        binary_paths: state.totals.binary_paths.push(path@),
                        ..state.totals
                    },
                    ..state
                };
                after_answers(
                    loaded,
                    function,
                    profile.libraries@[index as int].name@,
                    indices,
                    results@,
                    answered(indices, results@),
                )
            },
        }
    }
}

/// The instructions and the summary together.
pub open spec fn lookup_state(b: ExclusiveSourceBreakdown, s: DwarfResolutionSummary) -> LookupState {
    LookupState { rows: groups::models(b.instructions@), totals: s.totals() }
}

/// Adds a warning.
fn warn(summary: &mut DwarfResolutionSummary, message: String)
    ensures
        final(summary).totals() == (LookupTotals {
            warnings: old(summary).totals().warnings.push(message@),
            ..old(summary).totals()
        }),
{
    let ghost before = summary.warnings@;
    summary.warnings.push(message);
    assert(text::views(summary.warnings@) =~= text::views(before).push(message@));
}

/// Takes one answer of a library into account.
fn take_answer(
    function_name: &str,
    library_name: &str,
    breakdown: &mut ExclusiveSourceBreakdown,
    summary: &mut DwarfResolutionSummary,
    index: usize,
    outcome: &LookupOutcome,
)
    ensures
        lookup_state(*final(breakdown), *final(summary)) == after_answer(
            lookup_state(*old(breakdown), *old(summary)),
            function_name@,
            library_name@,
            index,
            *outcome,
        ),
        same_but_lines(*final(breakdown), *old(breakdown)),
{
    let ghost state = lookup_state(*breakdown, *summary);
    if index >= breakdown.instructions.len() {
        return;
    }
    assert(state.rows[index as int] == breakdown.instructions@[index as int].model());
    let address: u64 = match breakdown.instructions[index].address {
        Some(address) => address,
        None => {
            return;
        },
    };
    match outcome {
        LookupOutcome::Nothing => {},
        LookupOutcome::Failed(error) => {
            if summary.warnings.len() < MAX_LOOKUP_WARNINGS {
                let mut message = "DWARF lookup failed for ".to_string();
                text::push_text(&mut message, library_name);
                text::push_text(&mut message, " at ");
                let hex = text::hexadecimal_text(address);
                text::push_text(&mut message, hex.as_str());
                text::push_text(&mut message, ": ");
                text::push_text(&mut message, error.as_str());
                assert(message@ =~= lookup_warning(library_name@, address, error@));
                warn(summary, message);
            }
        },
        LookupOutcome::Found(info) => {
            apply_dwarf_address_info(&mut breakdown.instructions[index], function_name, info);
            proof {
                let found = with_facts(state.rows[index as int], function_name@, facts(*info));
                assert(breakdown.instructions@[index as int].model() == found);
                assert(groups::models(breakdown.instructions@) =~= state.rows.update(
                    index as int,
                    found,
                ));
            }
            if text::text_eq(breakdown.instructions[index].source_origin, "dwarf") {
                summary.resolved_instruction_count = units::capped_count_add(
                    summary.resolved_instruction_count,
                    1,
                );
                summary.resolved_sample_count = units::capped_count_add(
                    summary.resolved_sample_count,
                    breakdown.instructions[index].sample_count,
                );
            }
        },
    }
}

/// Takes the answers of one library into account.
pub fn apply_library_outcome(
    profile: &ResolvedProfile,
    function_name: &str,
    breakdown: &mut ExclusiveSourceBreakdown,
    summary: &mut DwarfResolutionSummary,
    lookups: &LibraryLookups,
    outcome: &LibraryOutcome,
)
    ensures
        lookup_state(*final(breakdown), *final(summary)) == after_library(
            lookup_state(*old(breakdown), *old(summary)),
            *profile,
            function_name@,
            lookups.library_index,
            lookups.instruction_indices@,
            *outcome,
        ),
        same_but_lines(*final(breakdown), *old(breakdown)),
{
    if lookups.library_index >= profile.libraries.len() {
        let mut message = "profile instruction references missing library index ".to_string();
        text::push_decimal(&mut message, lookups.library_index as u128);
        warn(summary, message);
        return;
    }
    let library = &profile.libraries[lookups.library_index];
    match outcome {
        LibraryOutcome::Failed(error) => {
            warn(summary, error.clone());
        },
        LibraryOutcome::Loaded { path, identity_verified, results } => {
            summary.loaded_library_count = units::capped_count_add(summary.loaded_library_count, 1);
            if *identity_verified {
                summary.identity_verified_library_count = units::capped_count_add(
                    summary.identity_verified_library_count,
                    1,
                );
            } else {
                let mut message = "loaded DWARF from ".to_string();
                text::push_text(&mut message, path.as_str());
                text::push_text(
                    &mut message,
                    " but its identity could not be verified against a comparable native code id",
                );
                warn(summary, message);
            }
            let ghost paths = summary.binary_paths@;
            summary.binary_paths.push(path.clone());
            assert(text::views(summary.binary_paths@) =~= text::views(paths).push(path@));
            let ghost loaded = lookup_state(*breakdown, *summary);
            let ghost first = *breakdown;
            let mut n: usize = 0;
            while n < lookups.instruction_indices.len() && n < results.len()
                invariant
                    n <= answered(lookups.instruction_indices@, results@),
                    same_but_lines(*breakdown, first),
                    lookup_state(*breakdown, *summary) == after_answers(
                        loaded,
                        function_name@,
                        library.name@,
                        lookups.instruction_indices@,
                        results@,
                        n as int,
                    ),
                decreases results@.len() - n,
            {
                take_answer(
                    function_name,
                    library.name.as_str(),
                    breakdown,
                    summary,
                    lookups.instruction_indices[n],
                    &results[n],
                );
                n += 1;
            }
        },
    }
}

/// The state after the first `n` libraries.
pub open spec fn after_libraries(
    state: LookupState,
    profile: ResolvedProfile,
    function: Seq<char>,
    plan: Seq<(usize, Seq<usize>)>,
    outcomes: Seq<LibraryOutcome>,
    n: int,
) -> LookupState
    decreases n,
{
    if n <= 0 {
        state
    } else {
        after_library(
            after_libraries(state, profile, function, plan, outcomes, n - 1),
            profile,
            function,
            plan[n - 1].0,
            plan[n - 1].1,
            outcomes[n - 1],
        )
    }
}

/// Replaces what the profile and its symbol sidecar know of the source by what
/// the debug data of the libraries says, wherever that was found. `plan` is
/// what [`dwarf_lookups`] gives for the breakdown, and `outcomes` holds what
/// became of each part of it.
pub fn resolve_dwarf_sources(
    profile: &ResolvedProfile,
    function_name: &str,
    breakdown: &mut ExclusiveSourceBreakdown,
    plan: &Vec<LibraryLookups>,
    outcomes: &Vec<LibraryOutcome>,
) -> (r: DwarfResolutionSummary)
    requires
        outcomes@.len() == plan@.len(),
    ensures
        lookup_state(*final(breakdown), r) == after_libraries(
            LookupState {
                rows: groups::models(old(breakdown).instructions@),
                totals: planned_totals(groups::models(plan@)),
            },
            *profile,
            function_name@,
            groups::models(plan@),
            outcomes@,
            plan@.len() as int,
        ),
        same_but_lines(*final(breakdown), *old(breakdown)),
        lines_current(*final(breakdown)),
{
    let ghost rows = groups::models(plan@);
    let ghost first = *breakdown;
    let mut summary = plan_summary(plan);
    let ghost start = lookup_state(*breakdown, summary);
    let mut n: usize = 0;
    while n < plan.len()
        invariant
            n <= plan@.len(),
            outcomes@.len() == plan@.len(),
            rows == groups::models(plan@),
            same_but_lines(*breakdown, first),
            lookup_state(*breakdown, summary) == after_libraries(
                start,
                *profile,
                function_name@,
                rows,
                outcomes@,
                n as int,
            ),
        decreases plan@.len() - n,
    {
        assert(rows[n as int] == plan@[n as int].model());
        apply_library_outcome(
            profile,
            function_name,
            breakdown,
            &mut summary,
            &plan[n],
            &outcomes[n],
        );
        n += 1;
    }
    rebuild_source_lines(breakdown);
    summary
}

/// The samples of an instruction.
pub open spec fn row_samples() -> spec_fn(InstructionRow) -> nat {
    |row: InstructionRow| row.sample_count as nat
}

/// The time of an instruction.
pub open spec fn row_time() -> spec_fn(InstructionRow) -> nat {
    |row: InstructionRow| row.cpu_sample_time as nat
}

/// The samples of a source line.
pub open spec fn line_samples() -> spec_fn(LineRow) -> nat {
    |row: LineRow| row.sample_count as nat
}

/// The time of a source line.
pub open spec fn line_time() -> spec_fn(LineRow) -> nat {
    |row: LineRow| row.cpu_sample_time as nat
}

/// The source lines of a list of instructions together have its samples and
/// its time, as long as they fit.
pub proof fn law_lines_keep_samples(rows: Seq<InstructionRow>)
    ensures
        sums::sum_of(rows, row_samples()) <= usize::MAX ==> sums::sum_of(
            lines_of(rows),
            line_samples(),
        ) == sums::sum_of(rows, row_samples()),
        sums::sum_of(rows, row_time()) <= u64::MAX ==> sums::sum_of(lines_of(rows), line_time())
            == sums::sum_of(rows, row_time()),
{
    let all = groups::grouped::<ExclusiveInstructionBreakdown, SourceLineAccum>(rows);
    let ordered = rank::ranked(all, by_line());
    rank::law_ranking_rearranges(all, by_line());
    let samples = |m: LineGroup| m.row.sample_count as nat;
    let time = |m: LineGroup| m.row.cpu_sample_time as nat;
    sums::lemma_sum_same_items(ordered, all, samples);
    sums::lemma_sum_same_items(ordered, all, time);
    lemma_line_sums(ordered, lines_of(rows));
    if sums::sum_of(rows, row_samples()) <= usize::MAX {
        groups::law_grouping_keeps_sums::<ExclusiveInstructionBreakdown, SourceLineAccum>(
            rows,
            row_samples(),
            samples,
            usize::MAX as nat,
        );
    }
    if sums::sum_of(rows, row_time()) <= u64::MAX {
        groups::law_grouping_keeps_sums::<ExclusiveInstructionBreakdown, SourceLineAccum>(
            rows,
            row_time(),
            time,
            u64::MAX as nat,
        );
    }
}

proof fn lemma_line_sums(ordered: Seq<LineGroup>, lines: Seq<LineRow>)
    requires
        lines == Seq::new(ordered.len(), |i: int| ordered[i].row),
    ensures
        sums::sum_of(lines, line_samples()) == sums::sum_of(
            ordered,
            |m: LineGroup| m.row.sample_count as nat,
        ),
        sums::sum_of(lines, line_time()) == sums::sum_of(
            ordered,
            |m: LineGroup| m.row.cpu_sample_time as nat,
        ),
    decreases ordered.len(),
{
    if ordered.len() > 0 {
        let less = ordered.drop_last();
        assert(lines.drop_last() =~= Seq::new(less.len(), |i: int| less[i].row));
        lemma_line_sums(less, lines.drop_last());
    }
}

/// The instructions of a breakdown, and its source lines, together have the
/// samples and the time that the function has of its own, as long as these
/// stay below what fits.
pub proof fn law_breakdown_keeps_samples(
    b: ExclusiveSourceBreakdown,
    profile: ResolvedProfile,
    indices: Seq<usize>,
    range: AnalysisRange,
    function: Seq<char>,
)
    requires
        breaks_down(b, profile, indices, range, function),
    ensures
        b.exclusive_sample_count < usize::MAX ==> {
            &&& sums::sum_of(groups::models(b.instructions@), row_samples())
                == b.exclusive_sample_count
            &&& sums::sum_of(line_rows(b.source_lines@), line_samples())
                == b.exclusive_sample_count
        },
        b.exclusive_time_ms < u64::MAX ==> {
            &&& sums::sum_of(groups::models(b.instructions@), row_time()) == b.exclusive_time_ms
            &&& sums::sum_of(line_rows(b.source_lines@), line_time()) == b.exclusive_time_ms
        },
{
    let m = indices.len() as int;
    let items = scope_rows(profile, indices, range, function, m);
    let all = groups::grouped::<ExclusiveInstructionBreakdown, ExclusiveInstructionBreakdown>(items);
    let rows = groups::models(b.instructions@);
    lemma_scope_sums(profile, indices, range, function, m);
    rank::law_ranking_rearranges(all, by_instruction());
    sums::lemma_sum_same_items(rows, all, row_samples());
    sums::lemma_sum_same_items(rows, all, row_time());
    law_lines_keep_samples(rows);
    if b.exclusive_sample_count < usize::MAX {
        groups::law_grouping_keeps_sums::<
            ExclusiveInstructionBreakdown,
            ExclusiveInstructionBreakdown,
        >(items, row_samples(), row_samples(), usize::MAX as nat);
    }
    if b.exclusive_time_ms < u64::MAX {
        groups::law_grouping_keeps_sums::<
            ExclusiveInstructionBreakdown,
            ExclusiveInstructionBreakdown,
        >(items, row_time(), row_time(), u64::MAX as nat);
    }
}

proof fn lemma_thread_sums(
    thread: ResolvedThread,
    interval: u64,
    range: AnalysisRange,
    function: Seq<char>,
    n: int,
)
    ensures
        sums::sum_of(thread_rows(thread, interval, range, function, n), row_samples())
            == samples::count_where(
            thread.samples@,
            Some(range),
            functions::leaf_is(function),
            n,
        ),
        sums::sum_of(thread_rows(thread, interval, range, function, n), row_time())
            == samples::time_where(
            thread,
            interval,
            Some(range),
            functions::leaf_is(function),
            n,
        ),
    decreases n,
{
    if n > 0 {
        lemma_thread_sums(thread, interval, range, function, n - 1);
        let before = thread_rows(thread, interval, range, function, n - 1);
        let after = thread_rows(thread, interval, range, function, n);
        if after != before {
            assert(after.drop_last() =~= before);
        }
    }
}

proof fn lemma_scope_sums(
    profile: ResolvedProfile,
    indices: Seq<usize>,
    range: AnalysisRange,
    function: Seq<char>,
    m: int,
)
    ensures
        sums::sum_of(scope_rows(profile, indices, range, function, m), row_samples())
            == samples::over_threads(
            profile.threads@,
            indices,
            samples::counting(Some(range), functions::leaf_is(function)),
            m,
        ),
        sums::sum_of(scope_rows(profile, indices, range, function, m), row_time())
            == samples::over_threads(
            profile.threads@,
            indices,
            samples::timing(profile.interval_ms, Some(range), functions::leaf_is(function)),
            m,
        ),
    decreases m,
{
    if m > 0 {
        lemma_scope_sums(profile, indices, range, function, m - 1);
        if indices[m - 1] < profile.threads@.len() {
            let thread = profile.threads@[indices[m - 1] as int];
            let n = thread.samples@.len() as int;
            let before = scope_rows(profile, indices, range, function, m - 1);
            let more = thread_rows(thread, profile.interval_ms, range, function, n);
            lemma_thread_sums(thread, profile.interval_ms, range, function, n);
            sums::lemma_sum_concat(before, more, row_samples());
            sums::lemma_sum_concat(before, more, row_time());
        }
    }
}

/// Whether two lists of instructions have the same libraries, addresses,
/// samples and times.
pub open spec fn same_samples(a: Seq<InstructionRow>, b: Seq<InstructionRow>) -> bool {
    &&& a.len() == b.len()
    &&& forall|i: int|
        0 <= i < a.len() ==> {
            &&& (#[trigger] a[i]).library_index == b[i].library_index
            &&& a[i].address == b[i].address
            &&& a[i].sample_count == b[i].sample_count
            &&& a[i].cpu_sample_time == b[i].cpu_sample_time
        }
}

/// Debug data changes what is known of the source of instructions, never their
/// libraries, addresses, samples or times.
pub proof fn law_lookups_keep_samples(
    state: LookupState,
    profile: ResolvedProfile,
    function: Seq<char>,
    plan: Seq<(usize, Seq<usize>)>,
    outcomes: Seq<LibraryOutcome>,
    n: int,
)
    ensures
        same_samples(
            after_libraries(state, profile, function, plan, outcomes, n).rows,
            state.rows,
        ),
    decreases n,
{
    if n > 0 {
        law_lookups_keep_samples(state, profile, function, plan, outcomes, n - 1);
        let before = after_libraries(state, profile, function, plan, outcomes, n - 1);
        let (index, indices) = plan[n - 1];
        if index < profile.libraries@.len() {
            if let LibraryOutcome::Loaded { path, identity_verified, results } = outcomes[n - 1] {
                lemma_answers_keep_samples(
                    before.rows,
                    function,
                    profile.libraries@[index as int].name@,
                    indices,
                    results@,
                    answered(indices, results@),
                );
            }
        }
    }
}

proof fn lemma_answers_keep_samples(
    rows: Seq<InstructionRow>,
    function: Seq<char>,
    library: Seq<char>,
    indices: Seq<usize>,
    results: Seq<LookupOutcome>,
    n: int,
)
    ensures
        forall|state: LookupState|
            state.rows == rows ==> same_samples(
                (#[trigger] after_answers(state, function, library, indices, results, n)).rows,
                rows,
            ),
    decreases n,
{
    if n > 0 {
        lemma_answers_keep_samples(rows, function, library, indices, results, n - 1);
        assert forall|state: LookupState| state.rows == rows implies same_samples(
            (#[trigger] after_answers(state, function, library, indices, results, n)).rows,
            rows,
        ) by {
            let before = after_answers(state, function, library, indices, results, n - 1);
            assert(same_samples(before.rows, rows));
        }
    }
}

/// Without debug data, what the profile and its symbols say of the source of
/// instructions stays.
pub proof fn law_failed_lookups_change_nothing(
    state: LookupState,
    profile: ResolvedProfile,
    function: Seq<char>,
    plan: Seq<(usize, Seq<usize>)>,
    outcomes: Seq<LibraryOutcome>,
    n: int,
)
    requires
        0 <= n <= outcomes.len(),
        forall|i: int| 0 <= i < n ==> (#[trigger] outcomes[i]) is Failed,
    ensures
        after_libraries(state, profile, function, plan, outcomes, n).rows == state.rows,
    decreases n,
{
    if n > 0 {
        law_failed_lookups_change_nothing(state, profile, function, plan, outcomes, n - 1);
        assert(outcomes[n - 1] is Failed);
    }
}

/// An answer changes at most the instruction that was asked about, and a
/// lookup without a find changes none.
pub proof fn law_answers_touch_their_instruction(
    state: LookupState,
    function: Seq<char>,
    library: Seq<char>,
    index: usize,
    outcome: LookupOutcome,
)
    ensures
        ({
            let after = after_answer(state, function, library, index, outcome);
            &&& after.rows.len() == state.rows.len()
            &&& forall|i: int|
                0 <= i < state.rows.len() && i != index ==> #[trigger] after.rows[i]
                    == state.rows[i]
            &&& !(outcome is Found) ==> after.rows == state.rows
                && after.totals.resolved_instruction_count
                == state.totals.resolved_instruction_count
                && after.totals.resolved_sample_count == state.totals.resolved_sample_count
            &&& outcome is Nothing ==> after == state
            &&& after.totals.warnings.len() <= state.totals.warnings.len() + 1
            &&& outcome is Failed ==> (after.totals.warnings.len() > state.totals.warnings.len()
                <==> index < state.rows.len() && state.rows[index as int].address is Some
                && state.totals.warnings.len() < MAX_LOOKUP_WARNINGS)
        }),
{
}

/// Every instruction with an address and a library is looked up in that
/// library, no other is, and libraries rise in index.
pub proof fn law_lookups_are_planned(rows: Seq<InstructionRow>)
    requires
        rows.len() <= usize::MAX,
    ensures
        ({
            let plan = lookup_plan(rows);
            &&& forall|p: int, q: int|
                #![trigger plan[p], plan[q]]
                0 <= p < q < plan.len() ==> plan[p].0 <= plan[q].0
            &&& forall|p: int, i: int|
                #![trigger plan[p].1[i]]
                0 <= p < plan.len() && 0 <= i < plan[p].1.len() ==> plan[p].1[i] < rows.len()
                    && rows[plan[p].1[i] as int].library_index == Some(plan[p].0)
                    && rows[plan[p].1[i] as int].address is Some
            &&& forall|k: int|
                #![trigger rows[k]]
                0 <= k < rows.len() && rows[k].library_index is Some && rows[k].address is Some
                    ==> exists|p: int|
                    #![trigger plan[p]]
                    0 <= p < plan.len() && plan[p].0 == rows[k].library_index->0
                        && plan[p].1.contains(k as usize)
        }),
{
    let n = rows.len() as int;
    let items = lookup_items(rows, n);
    let all = groups::grouped::<LookupItem, LibraryLookups>(items);
    let plan = lookup_plan(rows);
    let earlier = |a: (usize, Seq<usize>), b: (usize, Seq<usize>)| a.0 < b.0;
    lemma_lookup_items(rows, n);
    groups::lemma_grouped::<LookupItem, LibraryLookups>(items);
    assert forall|i: int, j: int|
        #![trigger all[i], all[j]]
        0 <= i < all.len() && 0 <= j < all.len() && earlier(all[i], all[j]) implies rank::lex_before(
        by_library()(all[i]),
        by_library()(all[j]),
    ) by {
        let none = Seq::<i128>::empty();
        rank::lemma_ascending_leads(all[i].0 as int, all[j].0 as int, none, none);
        assert(rank::ascending(all[i].0 as int) + none =~= rank::ascending(all[i].0 as int));
        assert(rank::ascending(all[j].0 as int) + none =~= rank::ascending(all[j].0 as int));
    }
    rank::lemma_ranked_prefers(all, by_library(), earlier);
    assert forall|p: int, q: int|
        #![trigger plan[p], plan[q]]
        0 <= p < q < plan.len() implies plan[p].0 <= plan[q].0 by {
        assert(!earlier(plan[q], plan[p]));
    }
    assert forall|p: int, i: int|
        #![trigger plan[p].1[i]]
        0 <= p < plan.len() && 0 <= i < plan[p].1.len() implies plan[p].1[i] < rows.len()
        && rows[plan[p].1[i] as int].library_index == Some(plan[p].0)
        && rows[plan[p].1[i] as int].address is Some by {
        assert(all.contains(plan[p]));
        let g = choose|g: int| 0 <= g < all.len() && all[g] == plan[p];
        lemma_planned(items, all[g].0);
        assert(<LibraryLookups as Keyed>::key(all[g]) == all[g].0);
        let index = plan[p].1[i];
        assert(plan[p].1.contains(index));
        assert(items.contains((plan[p].0, index)));
        let k = choose|k: int| 0 <= k < items.len() && items[k] == (plan[p].0, index);
        assert(items[k].1 < n);
    }
    assert forall|k: int|
        #![trigger rows[k]]
        0 <= k < rows.len() && rows[k].library_index is Some && rows[k].address
            is Some implies exists|p: int|
        #![trigger plan[p]]
        0 <= p < plan.len() && plan[p].0 == rows[k].library_index->0 && plan[p].1.contains(
            k as usize,
        ) by {
        let item = (rows[k].library_index->0, k as usize);
        assert(items.contains(item));
        let q = choose|q: int| 0 <= q < items.len() && items[q] == item;
        let g = groups::lemma_item_has_group::<LookupItem, LibraryLookups>(items, q);
        assert(<LibraryLookups as Keyed>::key(all[g]) == item.0);
        lemma_planned(items, item.0);
        assert(plan.contains(all[g]));
        let p = choose|p: int| 0 <= p < plan.len() && plan[p] == all[g];
        assert(plan[p].1.contains(k as usize));
    }
}

proof fn lemma_planned(items: Seq<(usize, usize)>, library: usize)
    ensures
        groups::group_of::<LookupItem, LibraryLookups>(items, library) matches Some(m) ==> m.0
            == library && forall|index: usize| #[trigger]
            m.1.contains(index) <==> items.contains((library, index)),
        groups::group_of::<LookupItem, LibraryLookups>(items, library) is None ==> forall|
            index: usize,
        |
            !(#[trigger] items.contains((library, index))),
    decreases items.len(),
{
    if items.len() > 0 {
        let rest = items.drop_last();
        let last = items.last();
        lemma_planned(rest, library);
        assert forall|index: usize| #[trigger] items.contains((library, index)) <==> rest.contains(
            (library, index),
        ) || last == (library, index) by {
            if items.contains((library, index)) {
                let k = choose|k: int| 0 <= k < items.len() && items[k] == (library, index);
                if k < rest.len() {
                    assert(rest[k] == (library, index));
                }
            }
            if rest.contains((library, index)) {
                let k = choose|k: int| 0 <= k < rest.len() && rest[k] == (library, index);
                assert(items[k] == (library, index));
            }
            assert(items[items.len() - 1] == last);
        }
        if last.0 == library {
            let m = groups::group_of::<LookupItem, LibraryLookups>(items, library)->0;
            let before = match groups::group_of::<LookupItem, LibraryLookups>(rest, library) {
                Some(m) => m.1,
                None => Seq::empty(),
            };
            assert(m.1 =~= before.push(last.1));
            assert forall|index: usize| #[trigger] m.1.contains(index) <==> before.contains(index)
                || index == last.1 by {
                if m.1.contains(index) {
                    let k = choose|k: int| 0 <= k < m.1.len() && m.1[k] == index;
                    if k < before.len() {
                        assert(before[k] == index);
                    }
                }
                if before.contains(index) {
                    let k = choose|k: int| 0 <= k < before.len() && before[k] == index;
                    assert(m.1[k] == index);
                }
                assert(m.1[before.len() as int] == last.1);
            }
            assert forall|index: usize| #[trigger] m.1.contains(index) <==> items.contains(
                (library, index),
            ) by {}
        }
    }
}

proof fn lemma_lookup_items(rows: Seq<InstructionRow>, n: int)
    requires
        0 <= n <= rows.len() <= usize::MAX,
    ensures
        forall|i: int|
            #![trigger lookup_items(rows, n)[i]]
            0 <= i < lookup_items(rows, n).len() ==> {
                let item = lookup_items(rows, n)[i];
                item.1 < n && rows[item.1 as int].library_index == Some(item.0)
                    && rows[item.1 as int].address is Some
            },
        forall|k: int|
            #![trigger rows[k]]
            0 <= k < n && rows[k].library_index is Some && rows[k].address is Some ==> lookup_items(
                rows,
                n,
            ).contains((rows[k].library_index->0, k as usize)),
    decreases n,
{
    if n > 0 {
        let before = lookup_items(rows, n - 1);
        let after = lookup_items(rows, n);
        lemma_lookup_items(rows, n - 1);
        assert forall|i: int|
            #![trigger after[i]]
            0 <= i < after.len() implies {
            let item = after[i];
            item.1 < n && rows[item.1 as int].library_index == Some(item.0)
                && rows[item.1 as int].address is Some
        } by {
            if i < before.len() {
                assert(after[i] == before[i]);
            }
        }
        assert forall|k: int|
            #![trigger rows[k]]
            0 <= k < n && rows[k].library_index is Some && rows[k].address
                is Some implies after.contains((rows[k].library_index->0, k as usize)) by {
            let item = (rows[k].library_index->0, k as usize);
            if k < n - 1 {
                let i = choose|i: int| 0 <= i < before.len() && before[i] == item;
                assert(after[i] == item);
            } else {
                assert(after[before.len() as int] == item);
            }
        }
    }
}

}
