//! The raw tables of a processed profile, as its file lists them.
use crate::units::TimeValue;
use vstd::prelude::*;

verus! {

/// Top-level profile structure.
#[derive(Debug)]
pub struct RawProfile {
    pub meta: RawMeta,
    pub libs: Vec<RawLib>,
    pub shared: Option<RawShared>,
    pub threads: Vec<RawThread>,
}

/// Shared data (contains the global string table).
#[derive(Debug)]
pub struct RawShared {
    pub string_array: Vec<String>,
}

/// Profile metadata.
#[derive(Debug)]
pub struct RawMeta {
    pub categories: Vec<RawCategory>,
    pub interval: u64,
    pub product: Option<String>,
    pub oscpu: Option<String>,
    pub start_time: TimeValue,
    pub symbolicated: bool,
    pub marker_schema: Vec<RawMarkerSchema>,
    pub sample_units: Option<RawSampleUnits>,
}

/// The units of sample columns.
#[derive(Debug)]
pub struct RawSampleUnits {
    pub time: Option<String>,
    pub event_delay: Option<String>,
    pub thread_cpu_delta: Option<String>,
}

/// A category of frames.
#[derive(Debug)]
pub struct RawCategory {
    pub name: String,
    pub color: String,
    pub subcategories: Vec<String>,
}

/// How markers of one type are laid out.
#[derive(Debug)]
pub struct RawMarkerSchema {
    pub name: String,
    /// Where the marker is displayed, each place as JSON text.
    pub display: Vec<String>,
    pub data: Vec<RawMarkerSchemaField>,
}

/// A field of a marker.
#[derive(Debug)]
pub struct RawMarkerSchemaField {
    pub key: Option<String>,
    pub format: Option<String>,
}

/// A library.
#[derive(Debug)]
pub struct RawLib {
    pub name: String,
    pub path: String,
    pub debug_name: String,
    pub debug_path: String,
    pub breakpad_id: String,
    pub code_id: Option<String>,
    pub arch: Option<String>,
}

/// A single thread's data. Process and thread ids are text, whether the file
/// lists them as text or as numbers.
#[derive(Debug)]
pub struct RawThread {
    pub name: String,
    pub is_main_thread: bool,
    pub pid: String,
    pub tid: String,
    pub process_name: Option<String>,
    pub register_time: TimeValue,
    pub unregister_time: Option<TimeValue>,
    pub frame_table: RawFrameTable,
    pub func_table: RawFuncTable,
    pub stack_table: RawStackTable,
    pub samples: RawSampleTable,
    pub markers: Option<RawMarkerTable>,
    pub resource_table: RawResourceTable,
    pub native_symbols: RawNativeSymbolTable,
    pub string_array: Option<Vec<String>>,
    pub show_markers_in_timeline: bool,
}

/// Frame table: parallel arrays.
#[derive(Debug)]
pub struct RawFrameTable {
    pub length: usize,
    pub func: Vec<usize>,
    pub category: Option<Vec<usize>>,
    pub subcategory: Option<Vec<usize>>,
    pub line: Option<Vec<Option<u32>>>,
    pub column: Option<Vec<Option<u32>>>,
    pub address: Option<Vec<Option<i64>>>,
    pub native_symbol: Option<Vec<Option<usize>>>,
    pub inline_depth: Option<Vec<u16>>,
}

/// Function table: parallel arrays.
#[derive(Debug)]
pub struct RawFuncTable {
    pub length: usize,
    pub name: Vec<usize>,
    pub is_js: Option<Vec<bool>>,
    pub relevant_for_js: Option<Vec<bool>>,
    pub resource: Option<Vec<Option<i64>>>,
    pub file_name: Option<Vec<Option<usize>>>,
    pub line_number: Option<Vec<Option<u32>>>,
    pub column_number: Option<Vec<Option<u32>>>,
}

/// Stack table: a tree of prefixes.
#[derive(Debug)]
pub struct RawStackTable {
    pub length: usize,
    pub prefix: Vec<Option<usize>>,
    pub frame: Vec<usize>,
}

/// Sample table.
#[derive(Debug)]
pub struct RawSampleTable {
    pub length: usize,
    pub stack: Vec<Option<usize>>,
    pub time_deltas: Option<Vec<TimeValue>>,
    pub time: Option<Vec<TimeValue>>,
    pub weight: Option<Vec<i32>>,
    pub weight_type: Option<String>,
    pub thread_cpu_delta: Option<Vec<Option<i64>>>,
}

/// Resource table.
#[derive(Debug)]
pub struct RawResourceTable {
    pub length: usize,
    pub lib: Option<Vec<Option<usize>>>,
    pub name: Option<Vec<usize>>,
    pub kind: Option<Vec<usize>>,
}

/// Marker table. The data of each marker is JSON text.
#[derive(Debug)]
pub struct RawMarkerTable {
    pub length: usize,
    pub name: Option<Vec<usize>>,
    pub start_time: Option<Vec<Option<TimeValue>>>,
    pub end_time: Option<Vec<Option<TimeValue>>>,
    pub phase: Option<Vec<u8>>,
    pub category: Option<Vec<usize>>,
    pub data: Option<Vec<Option<String>>>,
}

/// Native symbols table.
#[derive(Debug)]
pub struct RawNativeSymbolTable {
    pub length: usize,
    pub address: Option<Vec<u64>>,
    pub function_size: Option<Vec<Option<u64>>>,
    pub lib_index: Option<Vec<usize>>,
    pub name: Option<Vec<usize>>,
}

/// The chain of frames that a stack index leads to, root first, in at most
/// `steps` steps. None if it does not end in so many steps or leaves a column
/// of the table. Frames outside the frame table are left out.
pub open spec fn chain(
    table: RawStackTable,
    frame_count: int,
    at: Option<usize>,
    steps: int,
) -> Option<Seq<usize>>
    decreases steps,
{
    match at {
        None => Some(Seq::empty()),
        Some(i) => if i >= table.length {
            Some(Seq::empty())
        } else if steps <= 0 || i >= table.frame@.len() || i >= table.prefix@.len() {
            None
        } else {
            match chain(table, frame_count, table.prefix@[i as int], steps - 1) {
                Some(above) => Some(
                    if table.frame@[i as int] < frame_count {
                        above.push(table.frame@[i as int])
                    } else {
                        above
                    },
                ),
                None => None,
            }
        },
    }
}

impl RawThread {
    /// Whether the columns of the tables hold what their lengths promise, and
    /// the stack of every sample leads to a root.
    pub open spec fn resolvable(self) -> bool {
        &&& self.func_table.name@.len() >= self.func_table.length
        &&& self.frame_table.func@.len() >= self.frame_table.length
        &&& self.samples.stack@.len() >= self.samples.length
        &&& forall|i: int|
            0 <= i < self.samples.length ==> chain(
                self.stack_table,
                self.frame_table.length as int,
                #[trigger] self.samples.stack@[i],
                self.stack_table.length as int,
            ) is Some
    }

    /// Whether a stack index leads to a root.
    fn stack_ends(&self, start: Option<usize>) -> (r: bool)
        ensures
            r == (chain(
                self.stack_table,
                self.frame_table.length as int,
                start,
                self.stack_table.length as int,
            ) is Some),
    {
        let table = &self.stack_table;
        let ghost frames = self.frame_table.length as int;
        let mut at: Option<usize> = start;
        let mut steps: usize = table.length;
        loop
            invariant
                *table == self.stack_table,
                frames == self.frame_table.length,
                steps <= table.length,
                chain(*table, frames, start, table.length as int) is Some <==> chain(
                    *table,
                    frames,
                    at,
                    steps as int,
                ) is Some,
            decreases steps,
        {
            let i: usize = match at {
                Some(i) => i,
                None => {
                    return true;
                },
            };
            if i >= table.length {
                return true;
            }
            if steps == 0 || i >= table.frame.len() || i >= table.prefix.len() {
                return false;
            }
            at = table.prefix[i];
            steps -= 1;
        }
    }

    /// Whether the thread can be resolved.
    pub fn is_resolvable(&self) -> (r: bool)
        ensures
            r == self.resolvable(),
    {
        if self.func_table.name.len() < self.func_table.length || self.frame_table.func.len()
            < self.frame_table.length || self.samples.stack.len() < self.samples.length {
            return false;
        }
        let mut i: usize = 0;
        while i < self.samples.length
            invariant
                i <= self.samples.length <= self.samples.stack@.len(),
                forall|k: int|
                    0 <= k < i ==> chain(
                        self.stack_table,
                        self.frame_table.length as int,
                        #[trigger] self.samples.stack@[k],
                        self.stack_table.length as int,
                    ) is Some,
            decreases self.samples.length - i,
        {
            if !self.stack_ends(self.samples.stack[i]) {
                return false;
            }
            i += 1;
        }
        true
    }
}

}
