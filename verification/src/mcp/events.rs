//! Markers and context switches of a thread.
use crate::analysis::context_switch;
use crate::analysis::context_switch::{
    ContextSwitchAnalysis, CpuUsage, Gap, OffCpuInterval, SwitchOutReason,
};
use crate::analysis::samples;
use crate::analysis::samples::AnalysisRange;
use crate::groups;
use crate::groups::Keyed;
use crate::mcp::summary;
use crate::mcp::summary::EffectiveTimeRange;
use crate::mcp::threads;
use crate::profile::markers;
use crate::profile::markers::{JsonFacts, MarkerJson};
use crate::profile::resolved::{ResolvedMarker, ResolvedProfile, ResolvedThread};
use crate::text;
use crate::units::{Ratio, TimeValue};
use vstd::prelude::*;

verus! {

/// The largest number of intervals that a report lists.
pub const MAX_INTERVALS: usize = 200;

/// A request for the markers of a thread.
#[derive(Debug)]
pub struct MarkersRequest {
    pub path: String,
    pub thread: Option<String>,
    pub tid: Option<String>,
    pub thread_index: Option<usize>,
    pub limit: usize,
}

/// A marker of a thread.
#[derive(Debug)]
pub struct MarkerInfo {
    pub name: String,
    pub start_time: Option<TimeValue>,
    pub end_time: Option<TimeValue>,
    pub phase: Option<u8>,
    pub category: String,
    pub data: Option<MarkerJson>,
}

/// The markers of a thread.
#[derive(Debug)]
pub struct MarkersResult {
    pub thread: String,
    pub tid: String,
    pub thread_index: usize,
    pub markers: Vec<MarkerInfo>,
}

/// The data of a marker with its string indices resolved, where it has data
/// that is JSON.
pub open spec fn data_of(marker: ResolvedMarker) -> Option<JsonFacts> {
    match marker.data {
        Some(data) => {
            let facts = markers::resolved_json(
                markers::json_reading(data.raw@),
                data.schema@,
                data.strings@,
            );
            if facts is Invalid {
                None
            } else {
                Some(facts)
            }
        },
        None => None,
    }
}

/// What the data of a row says, where there is any.
pub open spec fn data_in(data: Option<MarkerJson>) -> Option<JsonFacts> {
    match data {
        Some(json) => Some(json.facts()),
        None => None,
    }
}

/// Whether a row tells of a marker with given data.
pub open spec fn tells_marker(
    r: MarkerInfo,
    marker: ResolvedMarker,
    data: Option<JsonFacts>,
) -> bool {
    &&& r.name@ == marker.name@
    &&& r.start_time == marker.start_time
    &&& r.end_time == marker.end_time
    &&& r.phase == marker.phase
    &&& r.category@ == marker.category@
    &&& data_in(r.data) == data
}

/// The row of a marker with given data.
pub fn marker_info(marker: &ResolvedMarker, data: Option<MarkerJson>) -> (r: MarkerInfo)
    ensures
        tells_marker(r, *marker, data_in(data)),
{
    MarkerInfo {
        name: marker.name.clone(),
        start_time: marker.start_time,
        end_time: marker.end_time,
        phase: marker.phase,
        category: marker.category.clone(),
        data,
    }
}

/// Whether rows tell of the first markers of a thread.
pub open spec fn tells_markers(r: Seq<MarkerInfo>, all: Seq<ResolvedMarker>, limit: int) -> bool {
    let shown = context_switch::at_most(all, limit);
    &&& r.len() == shown.len()
    &&& forall|i: int|
        0 <= i < r.len() ==> tells_marker(#[trigger] r[i], shown[i], data_of(shown[i]))
}

impl MarkersRequest {
    /// The thread that the request selects, or why there is none.
    pub open spec fn choice(&self, p: ResolvedProfile) -> threads::Choice {
        threads::selection(
            p.threads@,
            text::opt(self.thread),
            text::opt(self.tid),
            self.thread_index,
        )
    }
}

/// Whether an outcome answers a request for the markers of a thread.
pub open spec fn answers_markers(
    r: Result<MarkersResult, String>,
    p: ResolvedProfile,
    req: MarkersRequest,
) -> bool {
    match (r, req.choice(p)) {
        (Ok(report), Ok(index)) => {
            let thread = p.threads@[index];
            &&& report.thread@ == thread.name@
            &&& report.tid@ == thread.tid@
            &&& report.thread_index == index
            &&& tells_markers(report.markers@, thread.markers@, req.limit as int)
        },
        (Err(e), Err(message)) => e@ == message,
        _ => false,
    }
}

/// The first markers of a thread.
pub fn profile_markers(profile: &ResolvedProfile, req: &MarkersRequest) -> (r: Result<
    MarkersResult,
    String,
>)
    ensures
        answers_markers(r, *profile, *req),
{
    let selected = match threads::select_thread(
        profile,
        &req.thread,
        &req.tid,
        req.thread_index,
    ) {
        Ok(selected) => selected,
        Err(e) => {
            return Err(e);
        },
    };
    let thread = selected.thread;
    let mut rows: Vec<MarkerInfo> = Vec::new();
    let mut i: usize = 0;
    while i < thread.markers.len() && i < req.limit
        invariant
            i <= thread.markers@.len(),
            i <= req.limit,
            rows@.len() == i,
            forall|k: int|
                0 <= k < i ==> tells_marker(
                    #[trigger] rows@[k],
                    thread.markers@[k],
                    data_of(thread.markers@[k]),
                ),
        decreases thread.markers@.len() - i,
    {
        let data = thread.markers[i].data_value();
        rows.push(marker_info(&thread.markers[i], data));
        i += 1;
    }
    assert(tells_markers(rows@, thread.markers@, req.limit as int));
    Ok(
        MarkersResult {
            thread: thread.name.clone(),
            tid: thread.tid.clone(),
            thread_index: selected.index,
            markers: rows,
        },
    )
}

/// A request for the context switches of a thread.
#[derive(Debug)]
pub struct ContextSwitchesRequest {
    pub path: String,
    pub thread: Option<String>,
    pub tid: Option<String>,
    pub thread_index: Option<usize>,
    pub start_time_ms: Option<TimeValue>,
    pub end_time_ms: Option<TimeValue>,
    pub limit: usize,
}

/// How long a thread ran on a CPU.
#[derive(Debug)]
pub struct ContextSwitchCpuUsage {
    pub cpu: String,
    pub interval_count: usize,
    pub on_cpu_time_ms: u64,
    pub on_cpu_percent: Ratio,
}

/// How often and for how long a thread left the CPU for one reason.
#[derive(Debug)]
pub struct ContextSwitchReasonSummary {
    pub reason: String,
    pub switch_count: usize,
    pub observed_off_cpu_time_ms: u64,
}

/// A stretch of time off the CPU, relative to the start of the profile.
#[derive(Debug)]
pub struct OffCpuIntervalInfo {
    pub start_time_ms: i128,
    pub end_time_ms: i128,
    pub duration_ms: u64,
    pub reason: String,
    pub previous_cpu: String,
    pub next_cpu: String,
}

/// The context switches of a thread.
#[derive(Debug)]
pub struct ContextSwitchesResult {
    pub effective_range: EffectiveTimeRange,
    pub thread: String,
    pub tid: String,
    pub thread_index: usize,
    pub observed_start_time_ms: i128,
    pub observed_end_time_ms: i128,
    pub observed_duration_ms: u64,
    pub on_cpu_time_ms: u64,
    pub off_cpu_time_ms: u64,
    pub on_cpu_percent: Ratio,
    pub off_cpu_percent: Ratio,
    pub on_cpu_interval_count: usize,
    pub switch_out_count: usize,
    pub cpus: Vec<ContextSwitchCpuUsage>,
    pub switch_out_reasons: Vec<ContextSwitchReasonSummary>,
    pub longest_off_cpu_intervals: Vec<OffCpuIntervalInfo>,
}

impl ContextSwitchesRequest {
    /// The window that the request asks for.
    pub open spec fn window(&self, p: ResolvedProfile) -> AnalysisRange {
        summary::window(p, self.start_time_ms, self.end_time_ms)
    }

    /// The thread that the request selects, or why there is none.
    pub open spec fn choice(&self, p: ResolvedProfile) -> threads::Choice {
        match samples::window_error(p.duration_ms, self.start_time_ms, self.end_time_ms) {
            Some(e) => Err(e),
            None => threads::selection(
                p.threads@,
                text::opt(self.thread),
                text::opt(self.tid),
                self.thread_index,
            ),
        }
    }

    /// The number of intervals that a report lists at most.
    pub open spec fn interval_limit(&self) -> int {
        if self.limit < MAX_INTERVALS {
            self.limit as int
        } else {
            MAX_INTERVALS as int
        }
    }
}

/// Whether rows tell how long a thread ran on each CPU.
pub open spec fn tells_cpus(
    r: Seq<ContextSwitchCpuUsage>,
    cpus: Seq<(Seq<char>, usize, u64)>,
    duration: u64,
) -> bool {
    &&& r.len() == cpus.len()
    &&& forall|i: int|
        #![trigger r[i]]
        0 <= i < r.len() ==> r[i].cpu@ == cpus[i].0 && r[i].interval_count == cpus[i].1
            && r[i].on_cpu_time_ms == cpus[i].2 && r[i].on_cpu_percent == (Ratio {
            part: cpus[i].2,
            whole: duration,
        })
}

/// Whether rows tell why a thread left the CPU.
pub open spec fn tells_reasons(
    r: Seq<ContextSwitchReasonSummary>,
    reasons: Seq<(Seq<char>, usize, u64)>,
) -> bool {
    &&& r.len() == reasons.len()
    &&& forall|i: int|
        #![trigger r[i]]
        0 <= i < r.len() ==> r[i].reason@ == reasons[i].0 && r[i].switch_count == reasons[i].1
            && r[i].observed_off_cpu_time_ms == reasons[i].2
}

/// Whether rows tell when a thread was off the CPU.
pub open spec fn tells_intervals(
    r: Seq<OffCpuIntervalInfo>,
    gaps: Seq<Gap>,
    range: AnalysisRange,
) -> bool {
    &&& r.len() == gaps.len()
    &&& forall|i: int|
        #![trigger r[i]]
        0 <= i < r.len() ==> r[i].start_time_ms == gaps[i].start - range.observed_start_time_ms
            && r[i].end_time_ms == gaps[i].end - range.observed_start_time_ms && r[i].duration_ms
            == gaps[i].duration && r[i].reason@ == gaps[i].reason && r[i].previous_cpu@
            == gaps[i].previous_cpu && r[i].next_cpu@ == gaps[i].next_cpu
}

/// Whether a report tells of an analysis of a thread.
pub open spec fn tells_analysis(
    r: ContextSwitchesResult,
    index: int,
    thread: ResolvedThread,
    range: AnalysisRange,
    a: ContextSwitchAnalysis,
) -> bool {
    &&& r.effective_range == summary::range_row(range)
    &&& r.thread@ == thread.name@
    &&& r.tid@ == thread.tid@
    &&& r.thread_index == index
    &&& r.observed_start_time_ms == a.observed_start_time_ms - range.observed_start_time_ms
    &&& r.observed_end_time_ms == a.observed_end_time_ms - range.observed_start_time_ms
    &&& r.observed_duration_ms == a.observed_duration_ms
    &&& r.on_cpu_time_ms == a.on_cpu_time_ms
    &&& r.off_cpu_time_ms == a.off_cpu_time_ms
    &&& r.on_cpu_percent == (Ratio { part: a.on_cpu_time_ms, whole: a.observed_duration_ms })
    &&& r.off_cpu_percent == (Ratio { part: a.off_cpu_time_ms, whole: a.observed_duration_ms })
    &&& r.on_cpu_interval_count == a.on_cpu_interval_count
    &&& r.switch_out_count == a.switch_out_count
    &&& tells_cpus(r.cpus@, groups::models(a.cpus@), a.observed_duration_ms)
    &&& tells_reasons(r.switch_out_reasons@, groups::models(a.switch_out_reasons@))
    &&& tells_intervals(
        r.longest_off_cpu_intervals@,
        context_switch::gaps_in(a.longest_off_cpu_intervals@),
        range,
    )
}

/// Whether a report tells what the context switches of a thread show.
pub open spec fn tells_switches(
    r: ContextSwitchesResult,
    index: int,
    thread: ResolvedThread,
    range: AnalysisRange,
    limit: int,
) -> bool {
    let s = context_switch::ordered_stretches(thread);
    let start: i128 = (range.observed_start_time_ms + range.start_time_ms) as i128;
    let end: i128 = (range.observed_start_time_ms + range.end_time_ms) as i128;
    exists|a: ContextSwitchAnalysis|
        #![trigger tells_analysis(r, index, thread, range, a)]
        context_switch::tells(
            a,
            s,
            context_switch::observed_start(s, Some(start)),
            context_switch::observed_end(s, Some(end)),
            limit,
        ) && tells_analysis(r, index, thread, range, a)
}

/// Whether the context switches of a thread show anything in a window.
pub open spec fn has_switches(thread: ResolvedThread, range: AnalysisRange) -> bool {
    context_switch::is_observed(
        context_switch::ordered_stretches(thread),
        Some((range.observed_start_time_ms + range.start_time_ms) as i128),
        Some((range.observed_start_time_ms + range.end_time_ms) as i128),
    )
}

/// Why a thread without context switches has no report.
pub open spec fn no_switches_error(label: Seq<char>) -> Seq<char> {
    "No usable OnCpu context-switch intervals found for "@ + label
        + ". Record the profile with `samply record --per-cpu-threads --cswitch-markers ...` and select an application thread."@
}

/// Whether an outcome answers a request for the context switches of a thread.
pub open spec fn answers_switches(
    r: Result<ContextSwitchesResult, String>,
    p: ResolvedProfile,
    req: ContextSwitchesRequest,
) -> bool {
    match req.choice(p) {
        Err(message) => r matches Err(e) && e@ == message,
        Ok(index) => {
            let thread = p.threads@[index];
            let range = req.window(p);
            match r {
                Ok(report) => has_switches(thread, range) && tells_switches(
                    report,
                    index,
                    thread,
                    range,
                    req.interval_limit(),
                ),
                Err(e) => !has_switches(thread, range) && e@ == no_switches_error(
                    threads::label_of(index, thread.name@, thread.tid@),
                ),
            }
        },
    }
}

/// The rows of the CPUs.
fn cpu_rows(cpus: &Vec<CpuUsage>, duration: u64) -> (r: Vec<ContextSwitchCpuUsage>)
    ensures
        tells_cpus(r@, groups::models(cpus@), duration),
{
    let ghost all = groups::models(cpus@);
    let mut r: Vec<ContextSwitchCpuUsage> = Vec::new();
    let mut i: usize = 0;
    while i < cpus.len()
        invariant
            i <= cpus@.len(),
            all == groups::models(cpus@),
            r@.len() == i,
            forall|k: int|
                #![trigger r@[k]]
                0 <= k < i ==> r@[k].cpu@ == all[k].0 && r@[k].interval_count == all[k].1
                    && r@[k].on_cpu_time_ms == all[k].2 && r@[k].on_cpu_percent == (Ratio {
                    part: all[k].2,
                    whole: duration,
                }),
        decreases cpus@.len() - i,
    {
        let cpu = &cpus[i];
        assert(all[i as int] == cpu.model());
        r.push(
            ContextSwitchCpuUsage {
                cpu: cpu.cpu.clone(),
                interval_count: cpu.interval_count,
                on_cpu_time_ms: cpu.on_cpu_time_ms,
                on_cpu_percent: Ratio { part: cpu.on_cpu_time_ms, whole: duration },
            },
        );
        i += 1;
    }
    r
}

/// The rows of the reasons.
fn reason_rows(reasons: &Vec<SwitchOutReason>) -> (r: Vec<ContextSwitchReasonSummary>)
    ensures
        tells_reasons(r@, groups::models(reasons@)),
{
    let ghost all = groups::models(reasons@);
    let mut r: Vec<ContextSwitchReasonSummary> = Vec::new();
    let mut i: usize = 0;
    while i < reasons.len()
        invariant
            i <= reasons@.len(),
            all == groups::models(reasons@),
            r@.len() == i,
            forall|k: int|
                #![trigger r@[k]]
                0 <= k < i ==> r@[k].reason@ == all[k].0 && r@[k].switch_count == all[k].1
                    && r@[k].observed_off_cpu_time_ms == all[k].2,
        decreases reasons@.len() - i,
    {
        let reason = &reasons[i];
        assert(all[i as int] == reason.model());
        r.push(
            ContextSwitchReasonSummary {
                reason: reason.reason.clone(),
                switch_count: reason.switch_count,
                observed_off_cpu_time_ms: reason.observed_off_cpu_time_ms,
            },
        );
        i += 1;
    }
    r
}

/// The rows of stretches off the CPU.
fn interval_rows(intervals: &Vec<OffCpuInterval>, range: &AnalysisRange) -> (r: Vec<
    OffCpuIntervalInfo,
>)
    ensures
        tells_intervals(r@, context_switch::gaps_in(intervals@), *range),
{
    let ghost all = context_switch::gaps_in(intervals@);
    let mut r: Vec<OffCpuIntervalInfo> = Vec::new();
    let mut i: usize = 0;
    while i < intervals.len()
        invariant
            i <= intervals@.len(),
            all == context_switch::gaps_in(intervals@),
            r@.len() == i,
            forall|k: int|
                #![trigger r@[k]]
                0 <= k < i ==> r@[k].start_time_ms == all[k].start - range.observed_start_time_ms
                    && r@[k].end_time_ms == all[k].end - range.observed_start_time_ms
                    && r@[k].duration_ms == all[k].duration && r@[k].reason@ == all[k].reason
                    && r@[k].previous_cpu@ == all[k].previous_cpu && r@[k].next_cpu@
                    == all[k].next_cpu,
        decreases intervals@.len() - i,
    {
        let interval = &intervals[i];
        assert(all[i as int] == interval.gap());
        r.push(
            OffCpuIntervalInfo {
                start_time_ms: range.relative_time_ms(interval.start_time_ms),
                end_time_ms: range.relative_time_ms(interval.end_time_ms),
                duration_ms: interval.duration_ms,
                reason: interval.reason.clone(),
                previous_cpu: interval.previous_cpu.clone(),
                next_cpu: interval.next_cpu.clone(),
            },
        );
        i += 1;
    }
    r
}

/// What the context switches of a thread show: time on and off the CPU, use of
/// each CPU, reasons for leaving it, and the longest stretches off it.
pub fn profile_context_switches(profile: &ResolvedProfile, req: &ContextSwitchesRequest) -> (r:
    Result<ContextSwitchesResult, String>)
    ensures
        answers_switches(r, *profile, *req),
{
    let range = match AnalysisRange::resolve(profile, req.start_time_ms, req.end_time_ms) {
        Ok(range) => range,
        Err(e) => {
            return Err(e);
        },
    };
    let selected = match threads::select_thread(
        profile,
        &req.thread,
        &req.tid,
        req.thread_index,
    ) {
        Ok(selected) => selected,
        Err(e) => {
            return Err(e);
        },
    };
    let thread = selected.thread;
    let limit: usize = if req.limit < MAX_INTERVALS {
        req.limit
    } else {
        MAX_INTERVALS
    };
    let analysis = match context_switch::analyze_context_switches(
        thread,
        Some(range.raw_start_time_ms()),
        Some(range.raw_end_time_ms()),
        limit,
    ) {
        Some(analysis) => analysis,
        None => {
            let label: String = threads::thread_label(selected.index, thread);
            let mut s = "No usable OnCpu context-switch intervals found for ".to_string();
            text::push_text(&mut s, label.as_str());
            text::push_text(
                &mut s,
                ". Record the profile with `samply record --per-cpu-threads --cswitch-markers ...` and select an application thread.",
            );
            return Err(s);
        },
    };
    let observed_duration_ms: u64 = analysis.observed_duration_ms;
    let report = ContextSwitchesResult {
        effective_range: summary::effective_time_range(&range),
        thread: thread.name.clone(),
        tid: thread.tid.clone(),
        thread_index: selected.index,
        observed_start_time_ms: range.relative_time_ms(analysis.observed_start_time_ms),
        observed_end_time_ms: range.relative_time_ms(analysis.observed_end_time_ms),
        observed_duration_ms,
        on_cpu_time_ms: analysis.on_cpu_time_ms,
        off_cpu_time_ms: analysis.off_cpu_time_ms,
        on_cpu_percent: Ratio { part: analysis.on_cpu_time_ms, whole: observed_duration_ms },
        off_cpu_percent: Ratio { part: analysis.off_cpu_time_ms, whole: observed_duration_ms },
        on_cpu_interval_count: analysis.on_cpu_interval_count,
        switch_out_count: analysis.switch_out_count,
        cpus: cpu_rows(&analysis.cpus, observed_duration_ms),
        switch_out_reasons: reason_rows(&analysis.switch_out_reasons),
        longest_off_cpu_intervals: interval_rows(&analysis.longest_off_cpu_intervals, &range),
    };
    assert(tells_analysis(report, selected.index as int, *thread, range, analysis));
    assert(tells_switches(
        report,
        selected.index as int,
        *thread,
        range,
        req.interval_limit(),
    ));
    Ok(report)
}

}
