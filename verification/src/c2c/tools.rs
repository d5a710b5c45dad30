//! The reports that a memory recording answers requests with.
use crate::c2c::address;
use crate::c2c::classes;
use crate::c2c::classes::{Cpu, InstructionAddress, PhysicalLine, Pid, ThreadName, Tid, VirtualLine};
use crate::c2c::filter;
use crate::c2c::filter::{ByLine, ByProcessLine, C2cFilter, Matching};
use crate::c2c::orders;
use crate::c2c::orders::{CachelineSort, LineOrder, SiteOrder, SiteSort};
use crate::c2c::rows;
use crate::c2c::rows::{C2cCachelineStats, C2cCallchainRow, C2cInlineFrame, C2cMemoryLevelRow, C2cProfileSummary, C2cRawDataSourceRow, C2cResolvedCallchainFrame, InstructionSymbol, LookupFailure};
use crate::c2c::site;
use crate::c2c::site::BySite;
use crate::c2c::types;
use crate::c2c::types::{Average, C2cProfile, C2cSample, MappedInstruction};
use crate::rank;
use crate::sets;
use crate::text;
use crate::units::{Ratio, TimeValue};
use vstd::prelude::*;

verus! {

/// A request for the most contended cache lines.
#[derive(Debug)]
pub struct C2cTopCachelinesRequest {
    pub path: String,
    pub pid: Option<i32>,
    pub tid: Option<i32>,
    pub thread_name_prefix: Option<String>,
    pub start_time_ms: Option<TimeValue>,
    pub end_time_ms: Option<TimeValue>,
    pub sort_by: String,
    pub limit: usize,
}

/// A contended cache line.
#[derive(Debug)]
pub struct C2cCachelineRow {
    pub cacheline_address: String,
    pub physical_cacheline_addresses: Vec<String>,
    pub samples: usize,
    pub loads: usize,
    pub stores: usize,
    pub total_hitm: usize,
    pub local_hitm: usize,
    pub remote_hitm: usize,
    pub hitm_percent: Ratio,
    pub total_peer: usize,
    pub local_peer: usize,
    pub remote_peer: usize,
    pub locked: usize,
    pub average_weight: Average,
    pub average_instruction_latency: Option<Average>,
    pub cpus: Vec<u32>,
    pub pids: Vec<i32>,
    pub tids: Vec<i32>,
    pub thread_names: Vec<String>,
}

/// The most contended cache lines.
#[derive(Debug)]
pub struct C2cTopCachelinesResult {
    pub profile: C2cProfileSummary,
    pub sort_by: String,
    pub matched_stats: C2cCachelineStats,
    pub matched_memory_levels: Vec<C2cMemoryLevelRow>,
    pub total_matched_hitm: usize,
    pub total_matched_peer: usize,
    pub cachelines: Vec<C2cCachelineRow>,
}

/// The samples of a profile that pass a filter.
pub open spec fn matched(p: C2cProfile, f: C2cFilter) -> Seq<C2cSample> {
    classes::chosen((Matching { filter: &f, profile: &p }), p.samples@)
}

/// The cache lines of samples, as they are reported.
pub open spec fn line_classes(
    s: Seq<C2cSample>,
    sort: CachelineSort,
    size: u64,
    limit: usize,
) -> Seq<Seq<C2cSample>> {
    rows::limited(
        classes::ordered((LineOrder { sort, size }), classes::classes((ByLine { size }), s)),
        limit,
    )
}

/// Who accessed memory: CPUs, processes, threads and their names.
pub open spec fn tells_origin(
    cpus: Seq<u32>,
    pids: Seq<i32>,
    tids: Seq<i32>,
    thread_names: Seq<String>,
    s: Seq<C2cSample>,
) -> bool {
    &&& sets::models(cpus) == classes::gathered(Cpu, s)
    &&& sets::models(pids) == classes::gathered(Pid, s)
    &&& sets::models(tids) == classes::gathered(Tid, s)
    &&& sets::models(thread_names) == classes::gathered(ThreadName, s)
}

/// Whether a row reports a cache line.
pub open spec fn cacheline_row(
    row: C2cCachelineRow,
    class: Seq<C2cSample>,
    size: u64,
    total_hitm: usize,
) -> bool {
    let stats = types::stats_of(class);
    &&& row.cacheline_address@ == text::hex_text(
        address::aligned(class[0].data_address, size) as int,
    )
    &&& text::views(row.physical_cacheline_addresses@) == rows::address_texts(
        classes::gathered((PhysicalLine { size }), class),
    )
    &&& row.samples == stats.samples
    &&& row.loads == stats.loads
    &&& row.stores == stats.stores
    &&& row.total_hitm == stats.hitm()
    &&& row.local_hitm == stats.local_hitm
    &&& row.remote_hitm == stats.remote_hitm
    &&& row.hitm_percent == (Ratio { part: stats.hitm() as u64, whole: total_hitm as u64 })
    &&& row.total_peer == stats.peer()
    &&& row.local_peer == stats.local_peer
    &&& row.remote_peer == stats.remote_peer
    &&& row.locked == stats.locked
    &&& row.average_weight == (Average { sum: stats.weight_sum, count: stats.samples })
    &&& row.average_instruction_latency == stats.latency()
    &&& tells_origin(row.cpus@, row.pids@, row.tids@, row.thread_names@, class)
}

/// Whether rows report cache lines.
pub open spec fn cacheline_rows(
    list: Seq<C2cCachelineRow>,
    lines: Seq<Seq<C2cSample>>,
    size: u64,
    total_hitm: usize,
) -> bool {
    list.len() == lines.len() && forall|i: int|
        0 <= i < list.len() ==> cacheline_row(#[trigger] list[i], lines[i], size, total_hitm)
}

impl C2cTopCachelinesRequest {
    /// The samples that the request is about.
    pub open spec fn filter(&self) -> C2cFilter<'_> {
        C2cFilter {
            pid: self.pid,
            tid: self.tid,
            thread_name_prefix: &self.thread_name_prefix,
            start_time_ms: self.start_time_ms,
            end_time_ms: self.end_time_ms,
        }
    }

    /// What cache lines are ordered by.
    pub open spec fn sort(&self) -> Option<CachelineSort> {
        orders::cacheline_sort_named(text::ascii_lower(self.sort_by@))
    }

    /// Why the request cannot be answered, if so.
    pub open spec fn error(&self) -> Option<Seq<char>> {
        if self.sort() is None {
            Some("sort_by must be 'hitm', 'peer', 'samples', or 'weight'"@)
        } else {
            filter::filter_error(self.start_time_ms, self.end_time_ms)
        }
    }

    /// The order that the request asks for, which can be told before the
    /// recording is read.
    pub fn check_sort(&self) -> (r: Result<CachelineSort, String>)
        ensures
            match r {
                Ok(sort) => self.sort() == Some(sort),
                Err(e) => self.sort() is None && e@
                    == "sort_by must be 'hitm', 'peer', 'samples', or 'weight'"@,
            },
    {
        let sort_by = text::to_ascii_lower(self.sort_by.as_str());
        match orders::find_cacheline_sort(sort_by.as_str()) {
            Some(sort) => Ok(sort),
            None => Err("sort_by must be 'hitm', 'peer', 'samples', or 'weight'".to_string()),
        }
    }
}

/// Whether a report answers a request for cache lines.
pub open spec fn answers_top_cachelines(
    r: C2cTopCachelinesResult,
    p: C2cProfile,
    req: C2cTopCachelinesRequest,
) -> bool {
    let s = matched(p, req.filter());
    let stats = types::stats_of(s);
    &&& rows::summarizes(r.profile, p, s.len() as usize)
    &&& r.sort_by@ == text::ascii_lower(req.sort_by@)
    &&& r.matched_stats == rows::stats_row(stats)
    &&& rows::level_rows(r.matched_memory_levels@, s)
    &&& r.total_matched_hitm == stats.hitm()
    &&& r.total_matched_peer == stats.peer()
    &&& cacheline_rows(
        r.cachelines@,
        line_classes(s, req.sort()->0, p.cacheline_size, req.limit),
        p.cacheline_size,
        stats.hitm(),
    )
}

/// The samples of a profile that pass a filter.
pub(crate) fn match_samples<'a>(profile: &'a C2cProfile, f: &'a C2cFilter<'a>) -> (r: Vec<&'a C2cSample>)
    ensures
        classes::samples_at(r@) == matched(*profile, *f),
        r@.len() == matched(*profile, *f).len(),
{
    let condition = Matching { filter: f, profile };
    let all = classes::refer(&profile.samples);
    let r = classes::pick(&condition, &all);
    assert(classes::samples_at(r@).len() == r@.len());
    r
}

/// The physical cache lines of samples as text.
pub(crate) fn physical_lines(members: &Vec<&C2cSample>, size: u64) -> (r: Vec<String>)
    ensures
        text::views(r@) == rows::address_texts(
            classes::gathered((PhysicalLine { size }), classes::samples_at(members@)),
        ),
{
    let lines = classes::gather(&PhysicalLine { size }, members);
    assert(sets::models(lines@) =~= lines@);
    rows::format_addresses(&lines)
}

/// Reports a cache line.
fn make_cacheline_row(class: &Vec<&C2cSample>, size: u64, total_hitm: usize) -> (r: C2cCachelineRow)
    requires
        class@.len() > 0,
    ensures
        cacheline_row(r, classes::samples_at(class@), size, total_hitm),
{
    let stats = classes::tally(class);
    C2cCachelineRow {
        cacheline_address: address::format_address(address::line_of(class[0].data_address, size)),
        physical_cacheline_addresses: physical_lines(class, size),
        samples: stats.samples,
        loads: stats.loads,
        stores: stats.stores,
        total_hitm: stats.total_hitm(),
        local_hitm: stats.local_hitm,
        remote_hitm: stats.remote_hitm,
        hitm_percent: Ratio { part: stats.total_hitm() as u64, whole: total_hitm as u64 },
        total_peer: stats.total_peer(),
        local_peer: stats.local_peer,
        remote_peer: stats.remote_peer,
        locked: stats.locked,
        average_weight: stats.average_weight(),
        average_instruction_latency: stats.average_instruction_latency(),
        cpus: classes::gather(&Cpu, class),
        pids: classes::gather(&Pid, class),
        tids: classes::gather(&Tid, class),
        thread_names: classes::gather(&ThreadName, class),
    }
}

/// The most contended cache lines of a recording.
pub fn c2c_top_cachelines(profile: &C2cProfile, req: &C2cTopCachelinesRequest) -> (r: Result<
    C2cTopCachelinesResult,
    String,
>)
    requires
        profile.cacheline_size > 0,
    ensures
        match r {
            Ok(report) => req.error() is None && answers_top_cachelines(report, *profile, *req),
            Err(e) => req.error() == Some(e@),
        },
{
    let sort_by = text::to_ascii_lower(req.sort_by.as_str());
    let sort: CachelineSort = match req.check_sort() {
        Ok(sort) => sort,
        Err(e) => {
            return Err(e);
        },
    };
    let f = C2cFilter {
        pid: req.pid,
        tid: req.tid,
        thread_name_prefix: &req.thread_name_prefix,
        start_time_ms: req.start_time_ms,
        end_time_ms: req.end_time_ms,
    };
    match f.validate() {
        Ok(_) => {},
        Err(e) => {
            return Err(e);
        },
    }
    let size: u64 = profile.cacheline_size;
    let members = match_samples(profile, &f);
    let stats = classes::tally(&members);
    let total_hitm: usize = stats.total_hitm();
    let by = ByLine { size };
    let order = LineOrder { sort, size };
    let mut lines = classes::order_classes(&order, classes::classify(&by, &members));
    rows::limit_classes(&mut lines, req.limit);
    let ghost all = classes::classes_at(lines@);
    let mut cachelines: Vec<C2cCachelineRow> = Vec::new();
    let mut i: usize = 0;
    while i < lines.len()
        invariant
            i <= lines@.len(),
            all == classes::classes_at(lines@),
            forall|k: int| 0 <= k < lines@.len() ==> (#[trigger] lines@[k])@.len() > 0,
            cachelines@.len() == i,
            forall|k: int|
                0 <= k < i ==> cacheline_row(#[trigger] cachelines@[k], all[k], size, total_hitm),
        decreases lines@.len() - i,
    {
        assert(lines@[i as int]@.len() > 0);
        cachelines.push(make_cacheline_row(&lines[i], size, total_hitm));
        i += 1;
    }
    Ok(
        C2cTopCachelinesResult {
            profile: rows::c2c_profile_summary(profile, members.len()),
            sort_by,
            matched_stats: rows::c2c_stats_result(&stats),
            matched_memory_levels: rows::c2c_memory_level_rows(&members),
            total_matched_hitm: total_hitm,
            total_matched_peer: stats.total_peer(),
            cachelines,
        },
    )
}


/// A request for the access sites with the most contention.
#[derive(Debug)]
pub struct C2cTopAccessSitesRequest {
    pub path: String,
    pub pid: Option<i32>,
    pub tid: Option<i32>,
    pub thread_name_prefix: Option<String>,
    pub start_time_ms: Option<TimeValue>,
    pub end_time_ms: Option<TimeValue>,
    pub sort_by: String,
    pub group_by_callchain: bool,
    pub include_callchains: bool,
    pub callchain_limit: usize,
    pub limit: usize,
}

/// An access site.
#[derive(Debug)]
pub struct C2cTopAccessSiteRow {
    pub site_id: String,
    pub instruction_address: String,
    pub instruction_addresses: Vec<String>,
    /// The unmodified sampled addresses.
    pub raw_sampled_ips: Vec<String>,
    pub raw_data_sources: Vec<C2cRawDataSourceRow>,
    pub relative_instruction_address: Option<String>,
    pub function_name: Option<String>,
    pub dso: Option<String>,
    pub file: Option<String>,
    pub line: Option<u32>,
    pub inline_frames: Vec<C2cInlineFrame>,
    pub grouped_callchain: Vec<C2cResolvedCallchainFrame>,
    pub top_callchains: Vec<C2cCallchainRow>,
    pub samples: usize,
    pub loads: usize,
    pub stores: usize,
    pub total_hitm: usize,
    pub local_hitm: usize,
    pub remote_hitm: usize,
    pub total_peer: usize,
    pub local_peer: usize,
    pub remote_peer: usize,
    pub locked: usize,
    pub exact_ip_samples: usize,
    pub non_exact_ip_samples: usize,
    pub non_unit_weight_samples: usize,
    pub instruction_latency_samples: usize,
    pub average_weight: Average,
    pub average_instruction_latency: Option<Average>,
    pub distinct_virtual_cachelines: usize,
    pub distinct_hitm_cachelines: usize,
    pub distinct_physical_cachelines: usize,
    pub cpus: Vec<u32>,
    pub pids: Vec<i32>,
    pub tids: Vec<i32>,
    pub thread_names: Vec<String>,
    /// The place that the source is looked up for.
    pub mapped_instruction: Option<MappedInstruction>,
}

/// The access sites with the most contention.
#[derive(Debug)]
pub struct C2cTopAccessSitesResult {
    pub profile: C2cProfileSummary,
    pub sort_by: String,
    pub matched_stats: C2cCachelineStats,
    pub matched_memory_levels: Vec<C2cMemoryLevelRow>,
    pub grouped_by_callchain: bool,
    pub total_access_sites: usize,
    pub access_sites: Vec<C2cTopAccessSiteRow>,
    pub symbolication_warnings: Vec<String>,
}

/// The number of classes with an access that hits a modified line.
pub open spec fn with_hitm(classes: Seq<Seq<C2cSample>>) -> nat
    decreases classes.len(),
{
    if classes.len() == 0 {
        0
    } else {
        with_hitm(classes.drop_last()) + if types::stats_of(classes.last()).hitm() > 0 {
            1nat
        } else {
            0
        }
    }
}

/// The number of cache lines of samples on which a modified line was hit.
pub open spec fn hitm_lines(s: Seq<C2cSample>, size: u64) -> nat {
    with_hitm(classes::classes((ByProcessLine { size }), s))
}

/// The address that stands for an access site: the lowest sampled one.
pub open spec fn site_address(class: Seq<C2cSample>) -> Seq<char> {
    let addresses = classes::gathered(InstructionAddress, class);
    if addresses.len() > 0 {
        text::hex_text(addresses[0] as int)
    } else {
        text::hex_text(site::instruction_of(class[0]).raw_address as int)
    }
}

/// The access sites of samples, in their order.
pub open spec fn site_classes(s: Seq<C2cSample>, sort: SiteSort, by_callchain: bool) -> Seq<
    Seq<C2cSample>,
> {
    classes::ordered(
        (SiteOrder { sort, by_callchain }),
        classes::classes((BySite { by_callchain }), s),
    )
}

/// Whether a row reports an access site.
pub open spec fn site_row(
    row: C2cTopAccessSiteRow,
    class: Seq<C2cSample>,
    size: u64,
    req: C2cTopAccessSitesRequest,
    symbols: Seq<InstructionSymbol>,
) -> bool {
    let stats = types::stats_of(class);
    let mapped = types::opt_instruction(class[0].mapped_instruction);
    &&& row.site_id@ == site::site_id(site::site_of(class[0], req.group_by_callchain))
    &&& row.instruction_address@ == site_address(class)
    &&& text::views(row.instruction_addresses@) == rows::address_texts(
        classes::gathered(InstructionAddress, class),
    )
    &&& text::views(row.raw_sampled_ips@) == text::views(row.instruction_addresses@)
    &&& rows::source_rows(row.raw_data_sources@, class)
    &&& text::opt(row.relative_instruction_address) == rows::relative_text(mapped)
    &&& text::opt(row.dso) == rows::dso_of(mapped)
    &&& rows::tells_source(
        row.function_name,
        row.file,
        row.line,
        row.inline_frames@,
        rows::source_of(mapped, symbols),
    )
    &&& rows::caller_rows(
        row.grouped_callchain@,
        if req.group_by_callchain {
            types::callers(class[0].callchain@)
        } else {
            Seq::empty()
        },
        symbols,
    )
    &&& if req.include_callchains || req.group_by_callchain {
        rows::callchain_rows(row.top_callchains@, class, req.callchain_limit, symbols)
    } else {
        row.top_callchains@.len() == 0
    }
    &&& row.samples == stats.samples
    &&& row.loads == stats.loads
    &&& row.stores == stats.stores
    &&& row.total_hitm == stats.hitm()
    &&& row.local_hitm == stats.local_hitm
    &&& row.remote_hitm == stats.remote_hitm
    &&& row.total_peer == stats.peer()
    &&& row.local_peer == stats.local_peer
    &&& row.remote_peer == stats.remote_peer
    &&& row.locked == stats.locked
    &&& row.exact_ip_samples == stats.exact_ip_samples
    &&& row.non_exact_ip_samples == rows::remaining(stats.samples, stats.exact_ip_samples)
    &&& row.non_unit_weight_samples == stats.non_unit_weight_samples
    &&& row.instruction_latency_samples == stats.instruction_latency_samples
    &&& row.average_weight == (Average { sum: stats.weight_sum, count: stats.samples })
    &&& row.average_instruction_latency == stats.latency()
    &&& row.distinct_virtual_cachelines == classes::gathered((VirtualLine { size }), class).len()
    &&& row.distinct_hitm_cachelines == hitm_lines(class, size)
    &&& row.distinct_physical_cachelines == classes::gathered(
        (PhysicalLine { size }),
        class,
    ).len()
    &&& tells_origin(row.cpus@, row.pids@, row.tids@, row.thread_names@, class)
    &&& types::opt_instruction(row.mapped_instruction) == mapped
}

impl C2cTopAccessSitesRequest {
    /// The samples that the request is about.
    pub open spec fn filter(&self) -> C2cFilter<'_> {
        C2cFilter {
            pid: self.pid,
            tid: self.tid,
            thread_name_prefix: &self.thread_name_prefix,
            start_time_ms: self.start_time_ms,
            end_time_ms: self.end_time_ms,
        }
    }

    /// What access sites are ordered by.
    pub open spec fn sort(&self) -> Option<SiteSort> {
        orders::site_sort_named(text::ascii_lower(self.sort_by@))
    }

    /// Why the request cannot be answered, if so.
    pub open spec fn error(&self, p: C2cProfile) -> Option<Seq<char>> {
        if self.sort() is None {
            Some("sort_by must be 'hitm', 'locked', 'samples', 'weight', or 'latency'"@)
        } else {
            match filter::filter_error(self.start_time_ms, self.end_time_ms) {
                Some(e) => Some(e),
                None => {
                    let s = matched(p, self.filter());
                    rows::latency_error(
                        text::ascii_lower(self.sort_by@),
                        s.len() as usize,
                        types::stats_of(s),
                    )
                },
            }
        }
    }

    /// The order that the request asks for, which can be told before the
    /// recording is read.
    pub fn check_sort(&self) -> (r: Result<SiteSort, String>)
        ensures
            match r {
                Ok(sort) => self.sort() == Some(sort),
                Err(e) => self.sort() is None && e@
                    == "sort_by must be 'hitm', 'locked', 'samples', 'weight', or 'latency'"@,
            },
    {
        let sort_by = text::to_ascii_lower(self.sort_by.as_str());
        match orders::find_site_sort(sort_by.as_str()) {
            Some(sort) => Ok(sort),
            None => Err(
                "sort_by must be 'hitm', 'locked', 'samples', 'weight', or 'latency'".to_string(),
            ),
        }
    }
}

/// Whether warnings tell of failed lookups, in the order of their texts.
pub open spec fn warns(warnings: Seq<String>, failures: Seq<LookupFailure>) -> bool {
    text::views(warnings) == rank::ranked(rows::failure_texts(failures), rows::by_text())
}

/// Whether a report answers a request for access sites.
pub open spec fn answers_top_access_sites(
    r: C2cTopAccessSitesResult,
    p: C2cProfile,
    req: C2cTopAccessSitesRequest,
    symbols: Seq<InstructionSymbol>,
    failures: Seq<LookupFailure>,
) -> bool {
    let s = matched(p, req.filter());
    let sites = site_classes(s, req.sort()->0, req.group_by_callchain);
    let shown = rows::limited(sites, req.limit);
    &&& rows::summarizes(r.profile, p, s.len() as usize)
    &&& r.sort_by@ == text::ascii_lower(req.sort_by@)
    &&& r.matched_stats == rows::stats_row(types::stats_of(s))
    &&& rows::level_rows(r.matched_memory_levels@, s)
    &&& r.grouped_by_callchain == req.group_by_callchain
    &&& r.total_access_sites == sites.len()
    &&& r.access_sites@.len() == shown.len()
    &&& forall|i: int|
        0 <= i < shown.len() ==> site_row(
            #[trigger] r.access_sites@[i],
            shown[i],
            p.cacheline_size,
            req,
            symbols,
        )
    &&& warns(r.symbolication_warnings@, failures)
}

/// The number of cache lines of samples on which a modified line was hit.
fn count_hitm_lines(members: &Vec<&C2cSample>, size: u64) -> (r: usize)
    ensures
        r == hitm_lines(classes::samples_at(members@), size),
{
    let by = ByProcessLine { size };
    let lines = classes::classify(&by, members);
    let ghost all = classes::classes_at(lines@);
    let mut count: usize = 0;
    let mut i: usize = 0;
    assert(all.take(0) =~= Seq::<Seq<C2cSample>>::empty());
    while i < lines.len()
        invariant
            i <= lines@.len(),
            all == classes::classes_at(lines@),
            count <= i,
            count == with_hitm(all.take(i as int)),
        decreases lines@.len() - i,
    {
        proof {
            assert(all.take(i + 1).drop_last() =~= all.take(i as int));
        }
        let stats = classes::tally(&lines[i]);
        if stats.total_hitm() > 0 {
            count += 1;
        }
        i += 1;
    }
    assert(all.take(all.len() as int) =~= all);
    count
}

/// The sampled addresses of an access site as text, and the one that stands for it.
pub(crate) fn site_addresses(class: &Vec<&C2cSample>) -> (r: (String, Vec<String>))
    requires
        class@.len() > 0,
    ensures
        r.0@ == site_address(classes::samples_at(class@)),
        text::views(r.1@) == rows::address_texts(
            classes::gathered(InstructionAddress, classes::samples_at(class@)),
        ),
{
    let addresses = classes::gather(&InstructionAddress, class);
    assert(sets::models(addresses@) =~= addresses@);
    let first = if addresses.len() > 0 {
        address::format_address(addresses[0])
    } else {
        let identity = site::C2cInstructionIdentity::new(
            class[0].instruction_address,
            &class[0].mapped_instruction,
        );
        address::format_address(identity.raw_address)
    };
    (first, rows::format_addresses(&addresses))
}

/// Reports an access site.
fn make_site_row(
    class: &Vec<&C2cSample>,
    size: u64,
    req: &C2cTopAccessSitesRequest,
    symbols: &Vec<InstructionSymbol>,
) -> (r: C2cTopAccessSiteRow)
    requires
        class@.len() > 0,
    ensures
        site_row(r, classes::samples_at(class@), size, *req, symbols@),
{
    let stats = classes::tally(class);
    let mapped = &class[0].mapped_instruction;
    let source = rows::resolve_c2c_instruction(mapped, symbols);
    let (instruction_address, instruction_addresses) = site_addresses(class);
    let raw_sampled_ips = rows::copy_texts(&instruction_addresses);
    let grouped_callchain: Vec<C2cResolvedCallchainFrame> = if req.group_by_callchain {
        rows::resolve_c2c_callchain(&class[0].callchain, symbols)
    } else {
        Vec::new()
    };
    let top_callchains: Vec<C2cCallchainRow> = if req.include_callchains || req.group_by_callchain {
        rows::render_c2c_callchains(class, req.callchain_limit, symbols)
    } else {
        Vec::new()
    };
    let virtual_lines = classes::gather(&VirtualLine { size }, class);
    assert(sets::models(virtual_lines@).len() == virtual_lines@.len());
    let physical = classes::gather(&PhysicalLine { size }, class);
    assert(sets::models(physical@).len() == physical@.len());
    C2cTopAccessSiteRow {
        site_id: site::sample_site_id(class[0], req.group_by_callchain),
        instruction_address,
        instruction_addresses,
        raw_sampled_ips,
        raw_data_sources: rows::c2c_raw_data_source_rows(class),
        relative_instruction_address: rows::format_relative(mapped),
        function_name: source.function_name,
        dso: rows::copy_dso(mapped),
        file: source.file,
        line: source.line,
        inline_frames: source.inline_frames,
        grouped_callchain,
        top_callchains,
        samples: stats.samples,
        loads: stats.loads,
        stores: stats.stores,
        total_hitm: stats.total_hitm(),
        local_hitm: stats.local_hitm,
        remote_hitm: stats.remote_hitm,
        total_peer: stats.total_peer(),
        local_peer: stats.local_peer,
        remote_peer: stats.remote_peer,
        locked: stats.locked,
        exact_ip_samples: stats.exact_ip_samples,
        non_exact_ip_samples: rows::subtract(stats.samples, stats.exact_ip_samples),
        non_unit_weight_samples: stats.non_unit_weight_samples,
        instruction_latency_samples: stats.instruction_latency_samples,
        average_weight: stats.average_weight(),
        average_instruction_latency: stats.average_instruction_latency(),
        distinct_virtual_cachelines: virtual_lines.len(),
        distinct_hitm_cachelines: count_hitm_lines(class, size),
        distinct_physical_cachelines: physical.len(),
        cpus: classes::gather(&Cpu, class),
        pids: classes::gather(&Pid, class),
        tids: classes::gather(&Tid, class),
        thread_names: classes::gather(&ThreadName, class),
        mapped_instruction: types::share_instruction(mapped),
    }
}

/// The access sites of a recording with the most contention. Sources are those
/// of the given lookups.
pub fn c2c_top_access_sites(
    profile: &C2cProfile,
    req: &C2cTopAccessSitesRequest,
    symbols: &Vec<InstructionSymbol>,
    failures: &Vec<LookupFailure>,
) -> (r: Result<C2cTopAccessSitesResult, String>)
    requires
        profile.cacheline_size > 0,
    ensures
        match r {
            Ok(report) => req.error(*profile) is None && answers_top_access_sites(
                report,
                *profile,
                *req,
                symbols@,
                failures@,
            ),
            Err(e) => req.error(*profile) == Some(e@),
        },
{
    let sort_by = text::to_ascii_lower(req.sort_by.as_str());
    let sort: SiteSort = match req.check_sort() {
        Ok(sort) => sort,
        Err(e) => {
            return Err(e);
        },
    };
    let f = C2cFilter {
        pid: req.pid,
        tid: req.tid,
        thread_name_prefix: &req.thread_name_prefix,
        start_time_ms: req.start_time_ms,
        end_time_ms: req.end_time_ms,
    };
    match f.validate() {
        Ok(_) => {},
        Err(e) => {
            return Err(e);
        },
    }
    let size: u64 = profile.cacheline_size;
    let members = match_samples(profile, &f);
    let stats = classes::tally(&members);
    match rows::validate_c2c_latency_sort(sort_by.as_str(), members.len(), &stats) {
        Ok(_) => {},
        Err(e) => {
            return Err(e);
        },
    }
    let by = BySite { by_callchain: req.group_by_callchain };
    let order = SiteOrder { sort, by_callchain: req.group_by_callchain };
    let mut sites = classes::order_classes(&order, classes::classify(&by, &members));
    assert(classes::classes_at(sites@).len() == sites@.len());
    let total_access_sites: usize = sites.len();
    rows::limit_classes(&mut sites, req.limit);
    let ghost all = classes::classes_at(sites@);
    let mut access_sites: Vec<C2cTopAccessSiteRow> = Vec::new();
    let mut i: usize = 0;
    while i < sites.len()
        invariant
            i <= sites@.len(),
            all == classes::classes_at(sites@),
            forall|k: int| 0 <= k < sites@.len() ==> (#[trigger] sites@[k])@.len() > 0,
            access_sites@.len() == i,
            forall|k: int|
                0 <= k < i ==> site_row(#[trigger] access_sites@[k], all[k], size, *req, symbols@),
        decreases sites@.len() - i,
    {
        assert(sites@[i as int]@.len() > 0);
        access_sites.push(make_site_row(&sites[i], size, req, symbols));
        i += 1;
    }
    Ok(
        C2cTopAccessSitesResult {
            profile: rows::c2c_profile_summary(profile, members.len()),
            sort_by,
            matched_stats: rows::c2c_stats_result(&stats),
            matched_memory_levels: rows::c2c_memory_level_rows(&members),
            grouped_by_callchain: req.group_by_callchain,
            total_access_sites,
            access_sites,
            symbolication_warnings: rows::c2c_symbolication_warnings(failures),
        },
    )
}

}
