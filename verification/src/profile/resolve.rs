//! Resolution of the raw tables of a profile.
use crate::analysis::samples;
use crate::analysis::samples::AnalysisRange;
use crate::profile::markers;
use crate::profile::resolved::{
    ResolvedFrame, ResolvedInstruction, ResolvedLibrary, ResolvedMarker, ResolvedMarkerData,
    ResolvedProfile, ResolvedSample, ResolvedStack, ResolvedThread, SampleWeightType,
};
use crate::profile::symbols;
use crate::profile::symbols::{LibraryFacts, SymbolFacts, SymbolSidecar};
use crate::profile::types;
use crate::profile::types::{
    RawCategory, RawFrameTable, RawFuncTable, RawLib, RawMarkerSchema, RawMarkerTable, RawProfile,
    RawResourceTable, RawSampleTable, RawThread,
};
use crate::shared::share;
use crate::text;
use crate::units;
use crate::units::TimeValue;
use std::sync::Arc;
use vstd::prelude::*;

verus! {

/// What is needed to resolve a thread, beside the thread itself.
pub struct ThreadResolutionContext<'a> {
    pub categories: &'a Vec<String>,
    pub libs: &'a Vec<RawLib>,
    pub marker_schema: Arc<Vec<RawMarkerSchema>>,
    pub apply_symbol_names: bool,
    pub symbols: Option<&'a SymbolSidecar>,
}

/// What is needed to resolve a thread, as mathematics.
pub struct ContextFacts {
    pub categories: Seq<Seq<char>>,
    pub libs: Seq<RawLib>,
    pub schema: Seq<RawMarkerSchema>,
    pub apply_symbol_names: bool,
    pub sidecar: Option<Seq<LibraryFacts>>,
}

impl<'a> ThreadResolutionContext<'a> {
    /// What the context says.
    pub open spec fn facts(self) -> ContextFacts {
        ContextFacts {
            categories: text::views(self.categories@),
            libs: self.libs@,
            schema: self.marker_schema@,
            apply_symbol_names: self.apply_symbol_names,
            sidecar: sidecar_facts(self.symbols),
        }
    }
}

/// An instruction of a frame, as mathematics.
#[verifier::ext_equal]
pub struct InstructionFacts {
    pub address: u64,
    pub inline_depth: u16,
    pub library_index: Option<usize>,
    pub library_debug_id: Option<Seq<char>>,
    pub symbol: Option<SymbolFacts>,
}

/// A frame, as mathematics.
#[verifier::ext_equal]
pub struct FrameFacts {
    pub function_name: Seq<char>,
    pub file: Option<Seq<char>>,
    pub line: Option<u32>,
    pub category: Seq<char>,
    pub library: Option<Seq<char>>,
    pub instruction: Option<InstructionFacts>,
}

/// What an instruction says.
pub open spec fn instruction_facts(i: ResolvedInstruction) -> InstructionFacts {
    InstructionFacts {
        address: i.address,
        inline_depth: i.inline_depth,
        library_index: i.library_index,
        library_debug_id: text::opt(i.library_debug_id),
        symbol: match i.symbol {
            Some(symbol) => Some(symbol.symbol()),
            None => None,
        },
    }
}

/// What a frame says.
pub open spec fn frame_facts(f: ResolvedFrame) -> FrameFacts {
    FrameFacts {
        function_name: f.function_name@,
        file: text::opt(f.file),
        line: f.line,
        category: f.category@,
        library: text::opt(f.library),
        instruction: match f.instruction {
            Some(i) => Some(instruction_facts(i)),
            None => None,
        },
    }
}

/// What a stack of frames says, root first.
pub open spec fn stack_facts(s: Seq<Arc<ResolvedFrame>>) -> Seq<FrameFacts> {
    Seq::new(s.len(), |i: int| frame_facts(*s[i]))
}

/// A string of the string table; a missing one is named by its index.
pub open spec fn string_at(strings: Seq<String>, index: usize) -> Seq<char> {
    if index < strings.len() {
        strings[index as int]@
    } else {
        "<string:"@ + text::decimal(index as int) + ">"@
    }
}

/// The name of a category; a missing one is `Other`.
pub open spec fn category_at(categories: Seq<Seq<char>>, index: usize) -> Seq<char> {
    if index < categories.len() {
        categories[index as int]
    } else {
        "Other"@
    }
}

/// The entry of an optional column.
pub open spec fn cell<T>(column: Option<Vec<T>>, index: int) -> Option<T> {
    match column {
        Some(column) => if 0 <= index < column@.len() {
            Some(column@[index])
        } else {
            None
        },
        None => None,
    }
}

/// The entry of an optional column of optional values.
pub open spec fn filled_cell<T>(column: Option<Vec<Option<T>>>, index: int) -> Option<T> {
    match cell(column, index) {
        Some(value) => value,
        None => None,
    }
}

/// A value that is an index, if it is not negative.
pub open spec fn as_index(value: Option<i64>) -> Option<usize> {
    match value {
        Some(v) => if 0 <= v <= usize::MAX {
            Some(v as usize)
        } else {
            None
        },
        None => None,
    }
}

/// The file of a function.
pub open spec fn function_file(table: RawFuncTable, strings: Seq<String>, f: usize) -> Option<
    Seq<char>,
> {
    if f < table.length {
        match filled_cell(table.file_name, f as int) {
            Some(index) => Some(string_at(strings, index)),
            None => None,
        }
    } else {
        None
    }
}

/// The line of a function.
pub open spec fn function_line(table: RawFuncTable, f: usize) -> Option<u32> {
    if f < table.length {
        filled_cell(table.line_number, f as int)
    } else {
        None
    }
}

/// The index of the library that a function's resource belongs to.
pub open spec fn function_library(table: RawFuncTable, resources: RawResourceTable, f: usize)
    -> Option<usize> {
    if f < table.length {
        match as_index(filled_cell(table.resource, f as int)) {
            Some(resource) => filled_cell(resources.lib, resource as int),
            None => None,
        }
    } else {
        None
    }
}

/// The library with an index.
pub open spec fn library_at(libs: Seq<RawLib>, index: Option<usize>) -> Option<RawLib> {
    match index {
        Some(i) => if i < libs.len() {
            Some(libs[i as int])
        } else {
            None
        },
        None => None,
    }
}

/// The address of a frame, if it is not negative.
pub open spec fn frame_address(table: RawFrameTable, i: int) -> Option<u64> {
    match filled_cell(table.address, i) {
        Some(v) => if v >= 0 {
            Some(v as u64)
        } else {
            None
        },
        None => None,
    }
}

/// The symbol at an address of a library, where there is a sidecar.
pub open spec fn known_symbol(
    sidecar: Option<Seq<LibraryFacts>>,
    library: Option<RawLib>,
    address: u64,
) -> Option<SymbolFacts> {
    match (sidecar, library) {
        (Some(facts), Some(library)) => symbols::symbol_at(
            facts,
            symbols::normal_debug_id(library.breakpad_id@),
            library.debug_name@,
            address,
        ),
        _ => None,
    }
}

/// What a sidecar says, where there is one.
pub open spec fn sidecar_facts(s: Option<&SymbolSidecar>) -> Option<Seq<LibraryFacts>> {
    match s {
        Some(s) => Some(s.facts()),
        None => None,
    }
}

/// The instruction of a frame, where the frame has an address.
pub open spec fn instruction_of(thread: RawThread, ctx: ContextFacts, i: int) -> Option<
    InstructionFacts,
> {
    let f = thread.frame_table.func@[i];
    let index = function_library(thread.func_table, thread.resource_table, f);
    let library = library_at(ctx.libs, index);
    match frame_address(thread.frame_table, i) {
        Some(address) => Some(
            InstructionFacts {
                address,
                inline_depth: match cell(thread.frame_table.inline_depth, i) {
                    Some(depth) => depth,
                    None => 0,
                },
                library_index: index,
                library_debug_id: match library {
                    Some(library) => Some(library.breakpad_id@),
                    None => None,
                },
                symbol: known_symbol(ctx.sidecar, library, address),
            },
        ),
        None => None,
    }
}

/// The function name of a frame: of its symbol, where names are to be taken
/// from symbols and the frame is not inlined, else of the function table.
pub open spec fn frame_name(
    thread: RawThread,
    strings: Seq<String>,
    ctx: ContextFacts,
    i: int,
) -> Seq<char> {
    let f = thread.frame_table.func@[i];
    let listed = if f < thread.func_table.length {
        string_at(strings, thread.func_table.name@[f as int])
    } else {
        Seq::empty()
    };
    match instruction_of(thread, ctx, i) {
        Some(instruction) => if ctx.apply_symbol_names && instruction.inline_depth == 0 {
            match instruction.symbol {
                Some(symbol) => symbol.symbol_name,
                None => listed,
            }
        } else {
            listed
        },
        None => listed,
    }
}

/// A frame of the frame table.
pub open spec fn frame_of(
    thread: RawThread,
    strings: Seq<String>,
    ctx: ContextFacts,
    i: int,
) -> FrameFacts {
    let f = thread.frame_table.func@[i];
    FrameFacts {
        function_name: frame_name(thread, strings, ctx, i),
        file: function_file(thread.func_table, strings, f),
        line: match filled_cell(thread.frame_table.line, i) {
            Some(line) => Some(line),
            None => function_line(thread.func_table, f),
        },
        category: category_at(
            ctx.categories,
            match cell(thread.frame_table.category, i) {
                Some(category) => category,
                None => 0,
            },
        ),
        library: match library_at(
            ctx.libs,
            function_library(thread.func_table, thread.resource_table, f),
        ) {
            Some(library) => Some(library.name@),
            None => None,
        },
        instruction: instruction_of(thread, ctx, i),
    }
}

/// The frames of a stack of the stack table, root first.
pub open spec fn stack_of(
    thread: RawThread,
    strings: Seq<String>,
    ctx: ContextFacts,
    at: Option<usize>,
) -> Seq<FrameFacts> {
    let frames = types::chain(
        thread.stack_table,
        thread.frame_table.length as int,
        at,
        thread.stack_table.length as int,
    ).unwrap();
    Seq::new(frames.len(), |k: int| frame_of(thread, strings, ctx, frames[k] as int))
}

/// A time after another, where both are finite and so is their sum.
pub open spec fn time_plus(a: TimeValue, b: TimeValue) -> TimeValue {
    match (a, b) {
        (TimeValue::Finite(x), TimeValue::Finite(y)) => if i64::MIN <= x + y <= i64::MAX {
            TimeValue::Finite((x + y) as i64)
        } else {
            TimeValue::NotFinite
        },
        _ => TimeValue::NotFinite,
    }
}

/// The sum of the first `n` time steps.
pub open spec fn elapsed(deltas: Seq<TimeValue>, n: int) -> TimeValue
    decreases n,
{
    if n <= 0 {
        TimeValue::Finite(0)
    } else {
        time_plus(elapsed(deltas, n - 1), deltas[n - 1])
    }
}

/// The timestamp of a sample: listed, or the sum of the time steps up to it.
pub open spec fn timestamp_of(table: RawSampleTable, i: int) -> TimeValue {
    match (table.time, table.time_deltas) {
        (Some(time), _) => if i < time@.len() {
            time@[i]
        } else {
            TimeValue::Finite(0)
        },
        (None, Some(deltas)) => if i < deltas@.len() {
            elapsed(deltas@, i + 1)
        } else {
            TimeValue::Finite(0)
        },
        (None, None) => TimeValue::Finite(0),
    }
}

/// Whether a sample is the resolved row of the sample table.
pub open spec fn resolves_sample(
    sample: ResolvedSample,
    thread: RawThread,
    strings: Seq<String>,
    ctx: ContextFacts,
    i: int,
) -> bool {
    &&& sample.timestamp_ms == timestamp_of(thread.samples, i)
    &&& sample.weight == match cell(thread.samples.weight, i) {
        Some(weight) => weight,
        None => 1i32,
    }
    &&& sample.cpu_delta_us == filled_cell(thread.samples.thread_cpu_delta, i)
    &&& stack_facts(sample.stack.frames()) == stack_of(
        thread,
        strings,
        ctx,
        thread.samples.stack@[i],
    )
}

/// Whether a marker is the resolved row of the marker table.
pub open spec fn resolves_marker(
    marker: ResolvedMarker,
    table: RawMarkerTable,
    strings: Seq<String>,
    ctx: ContextFacts,
    i: int,
) -> bool {
    &&& marker.name@ == match cell(table.name, i) {
        Some(index) => string_at(strings, index),
        None => Seq::empty(),
    }
    &&& marker.start_time == filled_cell(table.start_time, i)
    &&& marker.end_time == filled_cell(table.end_time, i)
    &&& marker.phase == cell(table.phase, i)
    &&& marker.category@ == match cell(table.category, i) {
        Some(index) => category_at(ctx.categories, index),
        None => "Other"@,
    }
    &&& match filled_cell(table.data, i) {
        Some(raw) => {
            &&& marker.data matches Some(data) && data.raw@ == raw@ && data.schema@
                == ctx.schema && data.strings@ == strings
            &&& markers::switch_facts(marker.context_switch) == markers::context_switch_in(
                markers::json_reading(raw@),
                ctx.schema,
                strings,
            )
        },
        None => marker.data is None && marker.context_switch is None,
    }
}

/// What the weights of a sample table count.
pub open spec fn weight_type_of(name: Option<String>) -> SampleWeightType {
    if text::opt(name) == Some("tracing-ms"@) {
        SampleWeightType::TracingMilliseconds
    } else if text::opt(name) == Some("bytes"@) {
        SampleWeightType::Bytes
    } else {
        SampleWeightType::Samples
    }
}

/// The time between the first and the last of a list of samples.
pub open spec fn span_of(samples: Seq<ResolvedSample>) -> u64 {
    let n = samples.len() as int;
    match (samples::earliest(samples, n), samples::latest(samples, n)) {
        (Some(first), Some(last)) => (last - first) as u64,
        _ => 0,
    }
}

/// Whether a thread is the resolved form of a raw one.
pub open spec fn resolves_thread(
    r: ResolvedThread,
    thread: RawThread,
    strings: Seq<String>,
    ctx: ContextFacts,
) -> bool {
    &&& r.name@ == thread.name@
    &&& r.pid@ == thread.pid@
    &&& r.tid@ == thread.tid@
    &&& r.is_main == thread.is_main_thread
    &&& r.sample_weight_type == weight_type_of(thread.samples.weight_type)
    &&& r.samples@.len() == thread.samples.length
    &&& forall|i: int|
        0 <= i < thread.samples.length ==> resolves_sample(
            #[trigger] r.samples@[i],
            thread,
            strings,
            ctx,
            i,
        )
    &&& match thread.markers {
        Some(table) => r.markers@.len() == table.length && forall|i: int|
            0 <= i < table.length ==> resolves_marker(
                #[trigger] r.markers@[i],
                table,
                strings,
                ctx,
                i,
            ),
        None => r.markers@.len() == 0,
    }
    &&& r.duration_ms == span_of(r.samples@)
}

/// A string of the string table; a missing one is named by its index.
fn read_string(strings: &Vec<String>, index: usize) -> (r: String)
    ensures
        r@ == string_at(strings@, index),
{
    if index < strings.len() {
        strings[index].clone()
    } else {
        let mut name = "<string:".to_string();
        text::push_decimal(&mut name, index as u128);
        text::push_text(&mut name, ">");
        name
    }
}

/// The name of a category; a missing one is `Other`.
fn read_category(categories: &Vec<String>, index: usize) -> (r: String)
    ensures
        r@ == category_at(text::views(categories@), index),
{
    if index < categories.len() {
        categories[index].clone()
    } else {
        "Other".to_string()
    }
}

/// The entry of an optional column.
fn read_cell<T: Copy>(column: &Option<Vec<T>>, index: usize) -> (r: Option<T>)
    ensures
        r == cell(*column, index as int),
{
    match column {
        Some(column) => {
            if index < column.len() {
                Some(column[index])
            } else {
                None
            }
        },
        None => None,
    }
}

/// The entry of an optional column of optional values.
fn read_filled<T: Copy>(column: &Option<Vec<Option<T>>>, index: usize) -> (r: Option<T>)
    ensures
        r == filled_cell(*column, index as int),
{
    match column {
        Some(column) => {
            if index < column.len() {
                column[index]
            } else {
                None
            }
        },
        None => None,
    }
}

/// The index of the library that a function's resource belongs to.
fn read_function_library(thread: &RawThread, f: usize) -> (r: Option<usize>)
    ensures
        r == function_library(thread.func_table, thread.resource_table, f),
{
    if f >= thread.func_table.length {
        return None;
    }
    match read_filled(&thread.func_table.resource, f) {
        Some(value) => {
            if value >= 0 && value as u64 <= usize::MAX as u64 {
                read_filled(&thread.resource_table.lib, value as usize)
            } else {
                None
            }
        },
        None => None,
    }
}

/// The instruction of a frame, where the frame has an address.
fn read_instruction(
    thread: &RawThread,
    context: &ThreadResolutionContext,
    i: usize,
    library_index: Option<usize>,
) -> (r: Option<ResolvedInstruction>)
    requires
        i < thread.frame_table.func@.len(),
        library_index == function_library(
            thread.func_table,
            thread.resource_table,
            thread.frame_table.func@[i as int],
        ),
    ensures
        match r {
            Some(instruction) => instruction_of(*thread, context.facts(), i as int) == Some(
                instruction_facts(instruction),
            ),
            None => instruction_of(*thread, context.facts(), i as int) is None,
        },
{
    let address: u64 = match read_filled(&thread.frame_table.address, i) {
        Some(value) => {
            if value < 0 {
                return None;
            }
            value as u64
        },
        None => {
            return None;
        },
    };
    let inline_depth: u16 = match read_cell(&thread.frame_table.inline_depth, i) {
        Some(depth) => depth,
        None => 0,
    };
    let library: Option<&RawLib> = match library_index {
        Some(index) => {
            if index < context.libs.len() {
                Some(&context.libs[index])
            } else {
                None
            }
        },
        None => None,
    };
    match library {
        Some(library) => {
            let symbol = match context.symbols {
                Some(sidecar) => match sidecar.lookup(
                    library.breakpad_id.as_str(),
                    library.debug_name.as_str(),
                    address,
                ) {
                    Some(symbol) => Some(share(symbol)),
                    None => None,
                },
                None => None,
            };
            Some(
                ResolvedInstruction {
                    address,
                    inline_depth,
                    library_index,
                    library_debug_id: Some(library.breakpad_id.clone()),
                    symbol,
                },
            )
        },
        None => Some(
            ResolvedInstruction {
                address,
                inline_depth,
                library_index,
                library_debug_id: None,
                symbol: None,
            },
        ),
    }
}

/// A frame of the frame table.
fn resolve_frame(
    thread: &RawThread,
    strings: &Vec<String>,
    context: &ThreadResolutionContext,
    i: usize,
) -> (r: ResolvedFrame)
    requires
        i < thread.frame_table.func@.len(),
        thread.func_table.name@.len() >= thread.func_table.length,
    ensures
        frame_facts(r) == frame_of(*thread, strings@, context.facts(), i as int),
{
    let f: usize = thread.frame_table.func[i];
    let library_index = read_function_library(thread, f);
    let instruction = read_instruction(thread, context, i, library_index);
    let symbol_name: Option<String> = match &instruction {
        Some(at) => {
            if context.apply_symbol_names && at.inline_depth == 0 {
                match &at.symbol {
                    Some(symbol) => Some(symbol.symbol_name.clone()),
                    None => None,
                }
            } else {
                None
            }
        },
        None => None,
    };
    let function_name: String = match symbol_name {
        Some(name) => name,
        None => {
            if f < thread.func_table.length {
                read_string(strings, thread.func_table.name[f])
            } else {
                String::new()
            }
        },
    };
    let file: Option<String> = if f < thread.func_table.length {
        match read_filled(&thread.func_table.file_name, f) {
            Some(index) => Some(read_string(strings, index)),
            None => None,
        }
    } else {
        None
    };
    let line: Option<u32> = match read_filled(&thread.frame_table.line, i) {
        Some(line) => Some(line),
        None => {
            if f < thread.func_table.length {
                read_filled(&thread.func_table.line_number, f)
            } else {
                None
            }
        },
    };
    let category: usize = match read_cell(&thread.frame_table.category, i) {
        Some(category) => category,
        None => 0,
    };
    let library: Option<String> = match library_index {
        Some(index) => {
            if index < context.libs.len() {
                Some(context.libs[index].name.clone())
            } else {
                None
            }
        },
        None => None,
    };
    ResolvedFrame {
        function_name,
        file,
        line,
        category: read_category(context.categories, category),
        library,
        instruction,
    }
}

/// All frames of the frame table. Stacks share them instead of copying their strings.
fn resolve_frames(thread: &RawThread, strings: &Vec<String>, context: &ThreadResolutionContext)
    -> (r: Vec<Arc<ResolvedFrame>>)
    requires
        thread.frame_table.func@.len() >= thread.frame_table.length,
        thread.func_table.name@.len() >= thread.func_table.length,
    ensures
        r@.len() == thread.frame_table.length,
        forall|i: int|
            0 <= i < r@.len() ==> frame_facts(*#[trigger] r@[i]) == frame_of(
                *thread,
                strings@,
                context.facts(),
                i,
            ),
{
    let mut frames: Vec<Arc<ResolvedFrame>> = Vec::new();
    let mut i: usize = 0;
    while i < thread.frame_table.length
        invariant
            i <= thread.frame_table.length <= thread.frame_table.func@.len(),
            thread.func_table.name@.len() >= thread.func_table.length,
            frames@.len() == i,
            forall|k: int|
                0 <= k < i ==> frame_facts(*#[trigger] frames@[k]) == frame_of(
                    *thread,
                    strings@,
                    context.facts(),
                    k,
                ),
        decreases thread.frame_table.length - i,
    {
        frames.push(Arc::new(resolve_frame(thread, strings, context, i)));
        i += 1;
    }
    frames
}

/// The frames that a stack index leads to, root first.
fn resolve_stack(
    thread: &RawThread,
    frames: &Vec<Arc<ResolvedFrame>>,
    at: usize,
    steps: usize,
) -> (r: Vec<Arc<ResolvedFrame>>)
    requires
        frames@.len() == thread.frame_table.length,
        types::chain(
            thread.stack_table,
            thread.frame_table.length as int,
            Some(at),
            steps as int,
        ) is Some,
    ensures
        ({
            let ids = types::chain(
                thread.stack_table,
                thread.frame_table.length as int,
                Some(at),
                steps as int,
            ).unwrap();
            r@.len() == ids.len() && forall|k: int|
                0 <= k < ids.len() ==> #[trigger] r@[k] == frames@[ids[k] as int] && ids[k]
                    < frames@.len()
        }),
{
    let table = &thread.stack_table;
    let ghost count = thread.frame_table.length as int;
    // Collected leaf first; the chain is read back root first below.
    let mut leaf_first: Vec<usize> = Vec::new();
    let mut current: Option<usize> = Some(at);
    let mut left: usize = steps;
    let ghost whole = types::chain(*table, count, Some(at), steps as int).unwrap();
    assert(whole =~= types::chain(*table, count, current, left as int).unwrap()
        + leaf_first@.reverse());
    loop
        invariant
            *table == thread.stack_table,
            count == thread.frame_table.length,
            types::chain(*table, count, current, left as int) is Some,
            whole == types::chain(*table, count, current, left as int).unwrap()
                + leaf_first@.reverse(),
            forall|k: int| 0 <= k < leaf_first@.len() ==> #[trigger] leaf_first@[k] < count,
        ensures
            whole == leaf_first@.reverse(),
        decreases left,
    {
        let i: usize = match current {
            Some(i) => i,
            None => {
                assert(whole =~= leaf_first@.reverse());
                break;
            },
        };
        if i >= table.length {
            assert(whole =~= leaf_first@.reverse());
            break;
        }
        let frame: usize = table.frame[i];
        let ghost above = types::chain(*table, count, table.prefix@[i as int], left - 1).unwrap();
        if frame < thread.frame_table.length {
            let ghost before = leaf_first@;
            leaf_first.push(frame);
            assert(above.push(frame) + before.reverse() =~= above + leaf_first@.reverse());
        }
        current = table.prefix[i];
        left -= 1;
    }
    let mut out: Vec<Arc<ResolvedFrame>> = Vec::new();
    let mut n: usize = leaf_first.len();
    while n > 0
        invariant
            n <= leaf_first@.len(),
            whole == leaf_first@.reverse(),
            frames@.len() == count,
            forall|k: int| 0 <= k < leaf_first@.len() ==> #[trigger] leaf_first@[k] < count,
            out@.len() == leaf_first@.len() - n,
            forall|k: int|
                0 <= k < out@.len() ==> #[trigger] out@[k] == frames@[whole[k] as int] && whole[k]
                    < frames@.len(),
        decreases n,
    {
        assert(whole[leaf_first@.len() - n] == leaf_first@[n - 1]);
        out.push(share(&frames[leaf_first[n - 1]]));
        n -= 1;
    }
    assert(whole.len() == leaf_first@.len());
    assert forall|k: int| 0 <= k < whole.len() implies #[trigger] out@[k] == frames@[whole[k] as int]
        && whole[k] < frames@.len() by {}
    out
}

/// A time after another, where both are finite and so is their sum.
fn add_times(a: TimeValue, b: TimeValue) -> (r: TimeValue)
    ensures
        r == time_plus(a, b),
{
    match (a, b) {
        (TimeValue::Finite(x), TimeValue::Finite(y)) => match x.checked_add(y) {
            Some(sum) => TimeValue::Finite(sum),
            None => TimeValue::NotFinite,
        },
        _ => TimeValue::NotFinite,
    }
}

/// The timestamps of all samples.
fn resolve_timestamps(table: &RawSampleTable) -> (r: Vec<TimeValue>)
    ensures
        r@.len() == table.length,
        forall|i: int| 0 <= i < r@.len() ==> #[trigger] r@[i] == timestamp_of(*table, i),
{
    let mut times: Vec<TimeValue> = Vec::new();
    let mut total: TimeValue = TimeValue::Finite(0);
    let mut i: usize = 0;
    while i < table.length
        invariant
            i <= table.length,
            times@.len() == i,
            forall|k: int| 0 <= k < i ==> #[trigger] times@[k] == timestamp_of(*table, k),
            table.time is None ==> (table.time_deltas matches Some(deltas) ==> (i <= deltas@.len()
                ==> total == elapsed(deltas@, i as int))),
        decreases table.length - i,
    {
        let time: TimeValue = match &table.time {
            Some(listed) => {
                if i < listed.len() {
                    listed[i]
                } else {
                    TimeValue::Finite(0)
                }
            },
            None => match &table.time_deltas {
                Some(deltas) => {
                    if i < deltas.len() {
                        total = add_times(total, deltas[i]);
                        total
                    } else {
                        TimeValue::Finite(0)
                    }
                },
                None => TimeValue::Finite(0),
            },
        };
        times.push(time);
        i += 1;
    }
    times
}

/// What a cached stack holds.
spec fn cached(
    cache: Seq<Option<ResolvedStack>>,
    thread: RawThread,
    strings: Seq<String>,
    ctx: ContextFacts,
) -> bool {
    forall|k: int|
        0 <= k < cache.len() ==> (#[trigger] cache[k] matches Some(stack) ==> stack_facts(
            stack.frames(),
        ) == stack_of(thread, strings, ctx, Some(k as usize)))
}

/// All samples of a thread. Samples with the same stack index share one stack.
fn resolve_samples(
    thread: &RawThread,
    strings: &Vec<String>,
    context: &ThreadResolutionContext,
    frames: &Vec<Arc<ResolvedFrame>>,
) -> (r: Vec<ResolvedSample>)
    requires
        thread.resolvable(),
        frames@.len() == thread.frame_table.length,
        forall|i: int|
            0 <= i < frames@.len() ==> frame_facts(*#[trigger] frames@[i]) == frame_of(
                *thread,
                strings@,
                context.facts(),
                i,
            ),
    ensures
        r@.len() == thread.samples.length,
        forall|i: int|
            0 <= i < r@.len() ==> resolves_sample(
                #[trigger] r@[i],
                *thread,
                strings@,
                context.facts(),
                i,
            ),
{
    let timestamps = resolve_timestamps(&thread.samples);
    let size: usize = thread.stack_table.length;
    let rows: usize = if size < thread.stack_table.frame.len() {
        size
    } else {
        thread.stack_table.frame.len()
    };
    let mut cache: Vec<Option<ResolvedStack>> = Vec::new();
    let mut k: usize = 0;
    while k < rows
        invariant
            k <= rows,
            cache@.len() == k,
            forall|j: int| 0 <= j < k ==> #[trigger] cache@[j] is None,
        decreases rows - k,
    {
        cache.push(None);
        k += 1;
    }
    let empty = ResolvedStack::default();
    let mut samples: Vec<ResolvedSample> = Vec::new();
    let mut i: usize = 0;
    while i < thread.samples.length
        invariant
            i <= thread.samples.length,
            thread.resolvable(),
            size == thread.stack_table.length,
            frames@.len() == thread.frame_table.length,
            forall|i: int|
                0 <= i < frames@.len() ==> frame_facts(*#[trigger] frames@[i]) == frame_of(
                    *thread,
                    strings@,
                    context.facts(),
                    i,
                ),
            timestamps@.len() == thread.samples.length,
            forall|i: int|
                0 <= i < timestamps@.len() ==> #[trigger] timestamps@[i] == timestamp_of(
                    thread.samples,
                    i,
                ),
            empty.frames().len() == 0,
            cache@.len() == rows,
            rows <= size,
            rows == size || rows == thread.stack_table.frame@.len(),
            cached(cache@, *thread, strings@, context.facts()),
            samples@.len() == i,
            forall|k: int|
                0 <= k < i ==> resolves_sample(
                    #[trigger] samples@[k],
                    *thread,
                    strings@,
                    context.facts(),
                    k,
                ),
        decreases thread.samples.length - i,
    {
        let at: Option<usize> = thread.samples.stack[i];
        let ghost want = stack_of(*thread, strings@, context.facts(), at);
        assert(types::chain(
            thread.stack_table,
            thread.frame_table.length as int,
            thread.samples.stack@[i as int],
            size as int,
        ) is Some);
        let mut stack = empty.clone();
        assert(stack_facts(empty.frames()) =~= Seq::<FrameFacts>::empty());
        match at {
            Some(index) => {
                if index < size {
                    assert(index < rows);
                    let known: Option<ResolvedStack> = match &cache[index] {
                        Some(stack) => Some(stack.clone()),
                        None => None,
                    };
                    match known {
                        Some(shared) => {
                            stack = shared;
                        },
                        None => {
                            let resolved = resolve_stack(thread, frames, index, size);
                            stack = ResolvedStack(Arc::new(resolved));
                            assert(stack_facts(stack.frames()) =~= want);
                            cache.set(index, Some(stack.clone()));
                        },
                    }
                } else {
                    assert(want =~= Seq::<FrameFacts>::empty());
                }
            },
            None => {
                assert(want =~= Seq::<FrameFacts>::empty());
            },
        }
        let weight: i32 = match read_cell(&thread.samples.weight, i) {
            Some(weight) => weight,
            None => 1,
        };
        let cpu_delta_us = read_filled(&thread.samples.thread_cpu_delta, i);
        samples.push(
            ResolvedSample { timestamp_ms: timestamps[i], weight, cpu_delta_us, stack },
        );
        i += 1;
    }
    samples
}

/// All markers of a thread.
fn resolve_markers(
    table: &RawMarkerTable,
    strings: &Arc<Vec<String>>,
    context: &ThreadResolutionContext,
) -> (r: Vec<ResolvedMarker>)
    ensures
        r@.len() == table.length,
        forall|i: int|
            0 <= i < r@.len() ==> resolves_marker(
                #[trigger] r@[i],
                *table,
                strings@,
                context.facts(),
                i,
            ),
{
    let mut resolved: Vec<ResolvedMarker> = Vec::new();
    let mut intern: Vec<Arc<String>> = Vec::new();
    let mut i: usize = 0;
    while i < table.length
        invariant
            i <= table.length,
            resolved@.len() == i,
            forall|k: int|
                0 <= k < i ==> resolves_marker(
                    #[trigger] resolved@[k],
                    *table,
                    strings@,
                    context.facts(),
                    k,
                ),
        decreases table.length - i,
    {
        let name: String = match read_cell(&table.name, i) {
            Some(index) => read_string(strings, index),
            None => String::new(),
        };
        let category: String = match read_cell(&table.category, i) {
            Some(index) => read_category(context.categories, index),
            None => "Other".to_string(),
        };
        let raw: Option<String> = match &table.data {
            Some(column) => {
                if i < column.len() {
                    text::opt_clone(&column[i])
                } else {
                    None
                }
            },
            None => None,
        };
        let (data, context_switch) = match raw {
            Some(raw) => {
                let switch = markers::resolve_context_switch_marker(
                    raw.as_str(),
                    &context.marker_schema,
                    strings,
                    &mut intern,
                );
                let data = ResolvedMarkerData {
                    raw,
                    schema: share(&context.marker_schema),
                    strings: share(strings),
                };
                (Some(data), switch)
            },
            None => (None, None),
        };
        resolved.push(
            ResolvedMarker {
                name,
                start_time: read_filled(&table.start_time, i),
                end_time: read_filled(&table.end_time, i),
                phase: read_cell(&table.phase, i),
                category,
                data,
                context_switch,
            },
        );
        i += 1;
    }
    resolved
}

/// The resolved form of a thread.
pub fn resolve_thread(
    thread: &RawThread,
    strings: &Arc<Vec<String>>,
    context: &ThreadResolutionContext,
) -> (r: ResolvedThread)
    requires
        thread.resolvable(),
    ensures
        resolves_thread(r, *thread, strings@, context.facts()),
{
    let frames = resolve_frames(thread, strings, context);
    let samples = resolve_samples(thread, strings, context, &frames);
    let markers = match &thread.markers {
        Some(table) => resolve_markers(table, strings, context),
        None => Vec::new(),
    };
    let duration_ms: u64 = match samples::time_bounds(&samples) {
        Some((first, last)) => (last as i128 - first as i128) as u64,
        None => 0,
    };
    let sample_weight_type: SampleWeightType = match &thread.samples.weight_type {
        Some(name) => {
            if text::text_eq(name.as_str(), "tracing-ms") {
                SampleWeightType::TracingMilliseconds
            } else if text::text_eq(name.as_str(), "bytes") {
                SampleWeightType::Bytes
            } else {
                SampleWeightType::Samples
            }
        },
        None => SampleWeightType::Samples,
    };
    ResolvedThread {
        name: thread.name.clone(),
        pid: thread.pid.clone(),
        tid: thread.tid.clone(),
        is_main: thread.is_main_thread,
        sample_weight_type,
        samples,
        markers,
        duration_ms,
    }
}


/// The names of the categories.
pub open spec fn category_names(categories: Seq<RawCategory>) -> Seq<Seq<char>> {
    Seq::new(categories.len(), |i: int| categories[i].name@)
}

/// The string table of a thread: its own, or the shared one.
pub open spec fn thread_strings(raw: RawProfile, i: int) -> Seq<String> {
    match raw.threads@[i].string_array {
        Some(own) => own@,
        None => match raw.shared {
            Some(shared) => shared.string_array@,
            None => Seq::empty(),
        },
    }
}

/// The earliest timestamp of the first `n` threads, where there is one.
pub open spec fn profile_start(threads: Seq<ResolvedThread>, n: int) -> Option<i64>
    decreases n,
{
    if n <= 0 {
        None
    } else {
        let samples = threads[n - 1].samples@;
        match (profile_start(threads, n - 1), samples::earliest(samples, samples.len() as int)) {
            (Some(a), Some(b)) => Some(
                if b < a {
                    b
                } else {
                    a
                },
            ),
            (Some(a), None) => Some(a),
            (None, b) => b,
        }
    }
}

/// The latest timestamp of the first `n` threads, where there is one.
pub open spec fn profile_end(threads: Seq<ResolvedThread>, n: int) -> Option<i64>
    decreases n,
{
    if n <= 0 {
        None
    } else {
        let samples = threads[n - 1].samples@;
        match (profile_end(threads, n - 1), samples::latest(samples, samples.len() as int)) {
            (Some(a), Some(b)) => Some(
                if b > a {
                    b
                } else {
                    a
                },
            ),
            (Some(a), None) => Some(a),
            (None, b) => b,
        }
    }
}

/// The number of samples of the first `n` threads.
pub open spec fn profile_samples(threads: Seq<ResolvedThread>, n: int) -> nat
    decreases n,
{
    if n <= 0 {
        0
    } else {
        profile_samples(threads, n - 1) + threads[n - 1].samples@.len()
    }
}

/// Whether a library is the resolved form of a raw one.
pub open spec fn resolves_library(r: ResolvedLibrary, raw: RawLib) -> bool {
    &&& r.name == raw.name
    &&& r.path == raw.path
    &&& r.debug_name == raw.debug_name
    &&& r.debug_path == raw.debug_path
    &&& r.breakpad_id == raw.breakpad_id
    &&& r.code_id == raw.code_id
}

/// What is needed to resolve the threads of a profile.
pub open spec fn profile_context(raw: RawProfile, symbols: Option<&SymbolSidecar>) -> ContextFacts {
    ContextFacts {
        categories: category_names(raw.meta.categories@),
        libs: raw.libs@,
        schema: raw.meta.marker_schema@,
        apply_symbol_names: !raw.meta.symbolicated,
        sidecar: sidecar_facts(symbols),
    }
}

/// Whether a profile is the resolved form of a raw one.
pub open spec fn resolves_profile(
    r: ResolvedProfile,
    raw: RawProfile,
    symbols: Option<&SymbolSidecar>,
) -> bool {
    let n = r.threads@.len() as int;
    &&& r.threads@.len() == raw.threads@.len()
    &&& forall|i: int|
        0 <= i < n ==> resolves_thread(
            #[trigger] r.threads@[i],
            raw.threads@[i],
            thread_strings(raw, i),
            profile_context(raw, symbols),
        )
    &&& r.libraries@.len() == raw.libs@.len()
    &&& forall|i: int|
        0 <= i < r.libraries@.len() ==> resolves_library(#[trigger] r.libraries@[i], raw.libs@[i])
    &&& r.product@ == match raw.meta.product {
        Some(product) => product@,
        None => Seq::empty(),
    }
    &&& r.interval_ms == raw.meta.interval
    &&& text::views(r.categories@) == category_names(raw.meta.categories@)
    &&& r.observed_start_time_ms == match profile_start(r.threads@, n) {
        Some(start) => start,
        None => units::LAST_TIME,
    }
    &&& r.duration_ms == match (profile_start(r.threads@, n), profile_end(r.threads@, n)) {
        (Some(start), Some(end)) => (end - start) as u64,
        _ => 0u64,
    }
    &&& r.total_sample_count == units::capped_count(profile_samples(r.threads@, n) as int)
}

/// Whether every thread of a profile can be resolved.
pub open spec fn profile_resolvable(raw: RawProfile) -> bool {
    forall|i: int| 0 <= i < raw.threads@.len() ==> (#[trigger] raw.threads@[i]).resolvable()
}

/// Whether every thread of a profile can be resolved.
pub fn is_profile_resolvable(raw: &RawProfile) -> (r: bool)
    ensures
        r == profile_resolvable(*raw),
{
    let mut i: usize = 0;
    while i < raw.threads.len()
        invariant
            i <= raw.threads@.len(),
            forall|k: int| 0 <= k < i ==> (#[trigger] raw.threads@[k]).resolvable(),
        decreases raw.threads@.len() - i,
    {
        if !raw.threads[i].is_resolvable() {
            return false;
        }
        i += 1;
    }
    true
}

/// Another copy of a string table.
fn copy_strings(strings: &Vec<String>) -> (r: Vec<String>)
    ensures
        r@ == strings@,
{
    let mut out: Vec<String> = Vec::new();
    let mut i: usize = 0;
    while i < strings.len()
        invariant
            i <= strings@.len(),
            out@ == strings@.take(i as int),
        decreases strings@.len() - i,
    {
        out.push(strings[i].clone());
        i += 1;
    }
    assert(strings@.take(strings@.len() as int) =~= strings@);
    out
}

/// The resolved libraries of a profile.
fn resolve_libraries(libs: &Vec<RawLib>) -> (r: Vec<ResolvedLibrary>)
    ensures
        r@.len() == libs@.len(),
        forall|i: int| 0 <= i < r@.len() ==> resolves_library(#[trigger] r@[i], libs@[i]),
{
    let mut libraries: Vec<ResolvedLibrary> = Vec::new();
    let mut i: usize = 0;
    while i < libs.len()
        invariant
            i <= libs@.len(),
            libraries@.len() == i,
            forall|k: int| 0 <= k < i ==> resolves_library(#[trigger] libraries@[k], libs@[k]),
        decreases libs@.len() - i,
    {
        let library = &libs[i];
        libraries.push(
            ResolvedLibrary {
                name: library.name.clone(),
                path: library.path.clone(),
                debug_name: library.debug_name.clone(),
                debug_path: library.debug_path.clone(),
                breakpad_id: library.breakpad_id.clone(),
                code_id: text::opt_clone(&library.code_id),
            },
        );
        i += 1;
    }
    libraries
}

impl ResolvedProfile {
    /// The resolved form of a profile without a symbol sidecar.
    pub fn from_raw(raw: RawProfile) -> (r: Self)
        requires
            profile_resolvable(raw),
        ensures
            resolves_profile(r, raw, None),
    {
        Self::from_raw_with_symbols(raw, None)
    }

    /// The resolved form of a profile. Symbols of a sidecar name the functions
    /// of a profile that is not symbolicated yet.
    pub fn from_raw_with_symbols(
        raw: RawProfile,
        symbols: Option<&SymbolSidecar>,
    ) -> (r: Self)
        requires
            profile_resolvable(raw),
        ensures
            resolves_profile(r, raw, symbols),
    {
        let ghost facts = profile_context(raw, symbols);
        let mut categories: Vec<String> = Vec::new();
        let mut c: usize = 0;
        while c < raw.meta.categories.len()
            invariant
                c <= raw.meta.categories@.len(),
                text::views(categories@) == category_names(raw.meta.categories@).take(c as int),
            decreases raw.meta.categories@.len() - c,
        {
            let ghost before = categories@;
            let name = raw.meta.categories[c].name.clone();
            categories.push(name);
            assert(text::views(categories@) =~= text::views(before).push(name@));
            assert(text::views(categories@) =~= category_names(raw.meta.categories@).take(c + 1));
            c += 1;
        }
        assert(text::views(categories@) =~= category_names(raw.meta.categories@));
        let shared: Arc<Vec<String>> = match &raw.shared {
            Some(shared) => Arc::new(copy_strings(&shared.string_array)),
            None => Arc::new(Vec::new()),
        };
        let context = ThreadResolutionContext {
            categories: &categories,
            libs: &raw.libs,
            marker_schema: Arc::new(raw.meta.marker_schema),
            apply_symbol_names: !raw.meta.symbolicated,
            symbols,
        };
        assert(context.facts() == facts);
        let mut threads: Vec<ResolvedThread> = Vec::new();
        let mut total_sample_count: usize = 0;
        let mut bounds: Option<(i64, i64)> = None;
        let mut i: usize = 0;
        while i < raw.threads.len()
            invariant
                i <= raw.threads@.len(),
                profile_resolvable(raw),
                facts == profile_context(raw, symbols),
                context.facts() == facts,
                shared@ == (match raw.shared {
                    Some(shared) => shared.string_array@,
                    None => Seq::empty(),
                }),
                threads@.len() == i,
                forall|k: int|
                    0 <= k < i ==> resolves_thread(
                        #[trigger] threads@[k],
                        raw.threads@[k],
                        thread_strings(raw, k),
                        facts,
                    ),
                total_sample_count == units::capped_count(
                    profile_samples(threads@, i as int) as int,
                ),
                match bounds {
                    Some(pair) => profile_start(threads@, i as int) == Some(pair.0) && profile_end(
                        threads@,
                        i as int,
                    ) == Some(pair.1) && pair.0 <= pair.1,
                    None => profile_start(threads@, i as int) is None && profile_end(
                        threads@,
                        i as int,
                    ) is None,
                },
            decreases raw.threads@.len() - i,
        {
            let raw_thread = &raw.threads[i];
            let strings: Arc<Vec<String>> = match &raw_thread.string_array {
                Some(own) => Arc::new(copy_strings(own)),
                None => share(&shared),
            };
            let resolved = resolve_thread(raw_thread, &strings, &context);
            total_sample_count = units::capped_count_add(
                total_sample_count,
                resolved.samples.len(),
            );
            let ghost before = threads@;
            bounds = match (bounds, samples::time_bounds(&resolved.samples)) {
                (Some((a, b)), Some((first, last))) => Some(
                    (if first < a { first } else { a }, if last > b { last } else { b }),
                ),
                (Some(pair), None) => Some(pair),
                (None, other) => other,
            };
            threads.push(resolved);
            proof {
                lemma_profile_prefix(before, resolved, i as int);
            }
            i += 1;
        }
        let (observed_start_time_ms, duration_ms) = match bounds {
            Some((start, end)) => (start, (end as i128 - start as i128) as u64),
            None => (units::LAST_TIME, 0),
        };
        let product: String = match &raw.meta.product {
            Some(product) => product.clone(),
            None => String::new(),
        };
        ResolvedProfile {
            threads,
            libraries: resolve_libraries(&raw.libs),
            product,
            interval_ms: raw.meta.interval,
            categories,
            observed_start_time_ms,
            duration_ms,
            total_sample_count,
        }
    }
}

/// Sums over the first threads do not depend on a thread that comes later.
proof fn lemma_profile_prefix(threads: Seq<ResolvedThread>, last: ResolvedThread, n: int)
    requires
        n <= threads.len(),
    ensures
        profile_start(threads.push(last), n) == profile_start(threads, n),
        profile_end(threads.push(last), n) == profile_end(threads, n),
        profile_samples(threads.push(last), n) == profile_samples(threads, n),
    decreases n,
{
    if n > 0 {
        lemma_profile_prefix(threads, last, n - 1);
    }
}

/// Every finite timestamp of a profile lies between its start and its end.
pub proof fn law_profile_spans_all_samples(threads: Seq<ResolvedThread>, n: int, t: int, i: int)
    requires
        0 <= t < n <= threads.len(),
        0 <= i < threads[t].samples@.len(),
    ensures
        threads[t].samples@[i].timestamp_ms matches TimeValue::Finite(time) ==> profile_start(
            threads,
            n,
        ) is Some && profile_end(threads, n) is Some && profile_start(threads, n).unwrap() <= time
            <= profile_end(threads, n).unwrap(),
    decreases n,
{
    let samples = threads[n - 1].samples@;
    samples::lemma_time_bounds(samples, samples.len() as int);
    if t < n - 1 {
        law_profile_spans_all_samples(threads, n - 1, t, i);
    }
}

/// The window of the whole profile covers every sample with a finite
/// timestamp, and no other.
pub proof fn law_whole_window_covers_profile(
    r: ResolvedProfile,
    raw: RawProfile,
    symbols: Option<&SymbolSidecar>,
    range: AnalysisRange,
    t: int,
    i: int,
)
    requires
        resolves_profile(r, raw, symbols),
        range.observed_start_time_ms == r.observed_start_time_ms,
        range.start_time_ms == samples::window_start(None),
        range.end_time_ms == samples::window_end(r.duration_ms, None),
        0 <= t < r.threads@.len(),
        0 <= i < r.threads@[t].samples@.len(),
    ensures
        range.covers(r.threads@[t].samples@[i].timestamp_ms)
            <==> r.threads@[t].samples@[i].timestamp_ms is Finite,
{
    law_profile_spans_all_samples(r.threads@, r.threads@.len() as int, t, i);
}

}
