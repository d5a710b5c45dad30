//! A profile with its string, function, frame and stack tables resolved.
use crate::profile::symbols::SymbolAddressInfo;
use crate::profile::types::RawMarkerSchema;
use crate::shared::{same_allocation, share};
use crate::units::TimeValue;
use std::sync::Arc;
use vstd::prelude::*;

verus! {

/// A resolved profile.
#[derive(Debug, Clone)]
pub struct ResolvedProfile {
    pub threads: Vec<ResolvedThread>,
    pub libraries: Vec<ResolvedLibrary>,
    pub product: String,
    pub interval_ms: u64,
    pub categories: Vec<String>,
    /// Earliest observed sample timestamp in the profile's original clock domain.
    /// Without any finite timestamp it is the last time there is.
    pub observed_start_time_ms: i64,
    pub duration_ms: u64,
    pub total_sample_count: usize,
}

/// A library that sampled code belongs to.
#[derive(Debug, Clone)]
pub struct ResolvedLibrary {
    pub name: String,
    pub path: String,
    pub debug_name: String,
    pub debug_path: String,
    pub breakpad_id: String,
    pub code_id: Option<String>,
}

/// A thread with its samples and markers.
#[derive(Debug, Clone)]
pub struct ResolvedThread {
    pub name: String,
    pub pid: String,
    pub tid: String,
    pub is_main: bool,
    pub sample_weight_type: SampleWeightType,
    pub samples: Vec<ResolvedSample>,
    pub markers: Vec<ResolvedMarker>,
    pub duration_ms: u64,
}

/// What the weight of a sample counts.
#[derive(Debug, Clone, Copy, PartialEq, Eq, Structural)]
pub enum SampleWeightType {
    Samples,
    TracingMilliseconds,
    Bytes,
}

/// One sample of a thread.
#[derive(Debug, Clone)]
pub struct ResolvedSample {
    pub timestamp_ms: TimeValue,
    pub weight: i32,
    pub cpu_delta_us: Option<i64>,
    /// Root-first resolved stack shared by every sample with the same stack-table index.
    pub stack: ResolvedStack,
}

/// A root-first stack of shared frames.
#[derive(Debug)]
pub struct ResolvedStack(pub Arc<Vec<Arc<ResolvedFrame>>>);

impl ResolvedStack {
    /// The frames, root first.
    pub open spec fn frames(self) -> Seq<Arc<ResolvedFrame>> {
        self.0@
    }

    /// The function names of the frames, root first.
    pub open spec fn names(self) -> Seq<Seq<char>> {
        Seq::new(self.0@.len(), |i: int| self.0@[i].function_name@)
    }

    /// Whether two stacks share one allocation. Stacks that do hold the same
    /// frames; stacks that do not may still hold equal ones.
    pub fn ptr_eq(left: &Self, right: &Self) -> (r: bool)
        ensures
            r ==> left.frames() == right.frames(),
    {
        same_allocation(&left.0, &right.0)
    }

    /// The number of frames.
    pub fn len(&self) -> (r: usize)
        ensures
            r == self.frames().len(),
    {
        self.0.len()
    }

    /// Whether there is no frame.
    pub fn is_empty(&self) -> (r: bool)
        ensures
            r == (self.frames().len() == 0),
    {
        self.0.len() == 0
    }

    /// The frame at a position, counted from the root.
    pub fn frame(&self, index: usize) -> (r: &ResolvedFrame)
        requires
            index < self.frames().len(),
        ensures
            *r == *self.frames()[index as int],
    {
        &self.0[index]
    }
}

impl Clone for ResolvedStack {
    /// Another handle on the same frames.
    fn clone(&self) -> (r: Self)
        ensures
            r == *self,
    {
        ResolvedStack(share(&self.0))
    }
}

impl Default for ResolvedStack {
    /// The empty stack.
    fn default() -> (r: Self)
        ensures
            r.frames().len() == 0,
    {
        ResolvedStack(Arc::new(Vec::new()))
    }
}

impl vstd::std_specs::convert::FromSpecImpl<Vec<ResolvedFrame>> for ResolvedStack {
    open spec fn obeys_from_spec() -> bool {
        false
    }

    open spec fn from_spec(frames: Vec<ResolvedFrame>) -> Self {
        arbitrary()
    }
}

impl From<Vec<ResolvedFrame>> for ResolvedStack {
    /// The stack of the given frames, root first.
    fn from(frames: Vec<ResolvedFrame>) -> (r: Self)
        ensures
            r.frames().len() == frames@.len(),
            forall|i: int| 0 <= i < frames@.len() ==> *#[trigger] r.frames()[i] == frames@[i],
    {
        let mut out: Vec<Arc<ResolvedFrame>> = Vec::new();
        for frame in it: frames
            invariant
                it.seq() == frames@,
                out@.len() == it.index(),
                forall|i: int| 0 <= i < out@.len() ==> *#[trigger] out@[i] == frames@[i],
        {
            out.push(Arc::new(frame));
        }
        ResolvedStack(Arc::new(out))
    }
}

/// One frame of a stack.
#[derive(Debug, Clone)]
pub struct ResolvedFrame {
    pub function_name: String,
    pub file: Option<String>,
    pub line: Option<u32>,
    pub category: String,
    pub library: Option<String>,
    pub instruction: Option<ResolvedInstruction>,
}

/// Where in its library a frame was executing.
#[derive(Debug, Clone)]
pub struct ResolvedInstruction {
    /// Library-relative sampled instruction address.
    pub address: u64,
    pub inline_depth: u16,
    pub library_index: Option<usize>,
    pub library_debug_id: Option<String>,
    pub symbol: Option<Arc<SymbolAddressInfo>>,
}

/// A marker of a thread.
#[derive(Debug, Clone)]
pub struct ResolvedMarker {
    pub name: String,
    pub start_time: Option<TimeValue>,
    pub end_time: Option<TimeValue>,
    pub phase: Option<u8>,
    pub category: String,
    pub data: Option<ResolvedMarkerData>,
    pub context_switch: Option<ResolvedContextSwitchMarker>,
}

/// The data of a marker: JSON text, and what is needed to read it.
#[derive(Debug, Clone)]
pub struct ResolvedMarkerData {
    pub raw: String,
    pub schema: Arc<Vec<RawMarkerSchema>>,
    pub strings: Arc<Vec<String>>,
}

/// A stretch of time on a CPU.
#[derive(Debug, Clone)]
pub struct ResolvedContextSwitchMarker {
    pub cpu: Arc<String>,
    pub switch_out_reason: Arc<String>,
}

}
