//! The orders in which classes of memory samples are reported.
use crate::c2c::address;
use crate::c2c::classes;
use crate::c2c::classes::ClassOrder;
use crate::c2c::filter;
use crate::c2c::site;
use crate::c2c::types;
use crate::c2c::types::{C2cSample, C2cStats};
use crate::rank;
use crate::text;
use vstd::prelude::*;

verus! {

/// What cache lines are ordered by.
#[derive(Debug, Clone, Copy, PartialEq, Eq, Structural)]
pub enum CachelineSort {
    Hitm,
    Peer,
    Samples,
    Weight,
}

/// What access sites are ordered by.
#[derive(Debug, Clone, Copy, PartialEq, Eq, Structural)]
pub enum SiteSort {
    Hitm,
    Locked,
    Samples,
    Weight,
    Latency,
}

impl CachelineSort {
    /// The quantity that counts most.
    pub open spec fn metric(self, stats: C2cStats) -> int {
        match self {
            CachelineSort::Hitm => stats.hitm() as int,
            CachelineSort::Peer => stats.peer() as int,
            CachelineSort::Samples => stats.samples as int,
            CachelineSort::Weight => stats.weight_sum as int,
        }
    }
}

/// The whole part of an average latency, zero where none is recorded.
pub open spec fn latency_whole(stats: C2cStats) -> int {
    if stats.instruction_latency_samples == 0 {
        0
    } else {
        stats.instruction_latency_sum as int / stats.instruction_latency_samples as int
    }
}

/// The fraction of an average latency in units of 2^-46, zero where none is recorded.
pub open spec fn latency_fraction(stats: C2cStats) -> int {
    if stats.instruction_latency_samples == 0 {
        0
    } else {
        (stats.instruction_latency_sum as int % stats.instruction_latency_samples as int)
            * 0x4000_0000_0000 / stats.instruction_latency_samples as int
    }
}

impl SiteSort {
    /// What counts most.
    pub open spec fn key(self, stats: C2cStats) -> Seq<i128> {
        match self {
            SiteSort::Hitm => rank::descending(stats.hitm() as int),
            SiteSort::Locked => rank::descending(stats.locked as int),
            SiteSort::Samples => rank::descending(stats.samples as int),
            SiteSort::Weight => rank::descending(stats.weight_sum as int),
            SiteSort::Latency => rank::descending(latency_whole(stats)) + rank::descending(
                latency_fraction(stats),
            ),
        }
    }
}

/// The cache line order that a word names.
pub open spec fn cacheline_sort_named(word: Seq<char>) -> Option<CachelineSort> {
    if word == "hitm"@ {
        Some(CachelineSort::Hitm)
    } else if word == "peer"@ {
        Some(CachelineSort::Peer)
    } else if word == "samples"@ {
        Some(CachelineSort::Samples)
    } else if word == "weight"@ {
        Some(CachelineSort::Weight)
    } else {
        None
    }
}

/// The site order that a word names.
pub open spec fn site_sort_named(word: Seq<char>) -> Option<SiteSort> {
    if word == "hitm"@ {
        Some(SiteSort::Hitm)
    } else if word == "locked"@ {
        Some(SiteSort::Locked)
    } else if word == "samples"@ {
        Some(SiteSort::Samples)
    } else if word == "weight"@ {
        Some(SiteSort::Weight)
    } else if word == "latency"@ {
        Some(SiteSort::Latency)
    } else {
        None
    }
}

/// The cache line order that a word names.
pub(crate) fn find_cacheline_sort(word: &str) -> (r: Option<CachelineSort>)
    ensures
        r == cacheline_sort_named(word@),
{
    if text::text_eq(word, "hitm") {
        Some(CachelineSort::Hitm)
    } else if text::text_eq(word, "peer") {
        Some(CachelineSort::Peer)
    } else if text::text_eq(word, "samples") {
        Some(CachelineSort::Samples)
    } else if text::text_eq(word, "weight") {
        Some(CachelineSort::Weight)
    } else {
        None
    }
}

/// The site order that a word names.
pub(crate) fn find_site_sort(word: &str) -> (r: Option<SiteSort>)
    ensures
        r == site_sort_named(word@),
{
    if text::text_eq(word, "hitm") {
        Some(SiteSort::Hitm)
    } else if text::text_eq(word, "locked") {
        Some(SiteSort::Locked)
    } else if text::text_eq(word, "samples") {
        Some(SiteSort::Samples)
    } else if text::text_eq(word, "weight") {
        Some(SiteSort::Weight)
    } else if text::text_eq(word, "latency") {
        Some(SiteSort::Latency)
    } else {
        None
    }
}

/// Cache lines by a quantity, then by samples, then by address.
pub struct LineOrder {
    pub sort: CachelineSort,
    pub size: u64,
}

impl ClassOrder for LineOrder {
    open spec fn key(&self, class: Seq<C2cSample>) -> Seq<i128> {
        let stats = types::stats_of(class);
        rank::descending(self.sort.metric(stats)) + rank::descending(stats.samples as int)
            + rank::ascending(address::aligned(class[0].data_address, self.size) as int)
    }

    fn key_of(&self, class: &Vec<&C2cSample>) -> (r: Vec<i128>) {
        let stats = classes::tally(class);
        let metric: u128 = match self.sort {
            CachelineSort::Hitm => stats.total_hitm() as u128,
            CachelineSort::Peer => stats.total_peer() as u128,
            CachelineSort::Samples => stats.samples as u128,
            CachelineSort::Weight => stats.weight_sum,
        };
        let mut key: Vec<i128> = Vec::new();
        rank::push_descending(&mut key, metric);
        rank::push_descending(&mut key, stats.samples as u128);
        rank::push_ascending(&mut key, address::line_of(class[0].data_address, self.size) as i128);
        assert(key@ =~= self.key(classes::samples_at(class@)));
        key
    }
}

/// Access sites by a quantity, then by modified hits and samples, then by identifier.
pub struct SiteOrder {
    pub sort: SiteSort,
    pub by_callchain: bool,
}

impl ClassOrder for SiteOrder {
    open spec fn key(&self, class: Seq<C2cSample>) -> Seq<i128> {
        let stats = types::stats_of(class);
        self.sort.key(stats) + rank::descending(stats.hitm() as int) + rank::descending(
            stats.samples as int,
        ) + rank::textual(site::site_id(site::site_of(class[0], self.by_callchain)))
    }

    fn key_of(&self, class: &Vec<&C2cSample>) -> (r: Vec<i128>) {
        let stats = classes::tally(class);
        let mut key: Vec<i128> = Vec::new();
        match self.sort {
            SiteSort::Hitm => {
                rank::push_descending(&mut key, stats.total_hitm() as u128);
            },
            SiteSort::Locked => {
                rank::push_descending(&mut key, stats.locked as u128);
            },
            SiteSort::Samples => {
                rank::push_descending(&mut key, stats.samples as u128);
            },
            SiteSort::Weight => {
                rank::push_descending(&mut key, stats.weight_sum);
            },
            SiteSort::Latency => {
                push_latency(&mut key, &stats);
            },
        }
        assert(key@ =~= self.sort.key(stats));
        rank::push_descending(&mut key, stats.total_hitm() as u128);
        rank::push_descending(&mut key, stats.samples as u128);
        let id = site::sample_site_id(class[0], self.by_callchain);
        rank::push_textual(&mut key, id.as_str());
        assert(key@ =~= self.key(classes::samples_at(class@)));
        key
    }
}

/// Appends an average latency to a key.
fn push_latency(key: &mut Vec<i128>, stats: &C2cStats)
    ensures
        final(key)@ == old(key)@ + (rank::descending(latency_whole(*stats)) + rank::descending(
            latency_fraction(*stats),
        )),
{
    let count: u128 = stats.instruction_latency_samples as u128;
    let sum: u128 = stats.instruction_latency_sum;
    if count == 0 {
        rank::push_descending(key, 0);
        rank::push_descending(key, 0);
    } else {
        assert(sum % count < count) by (nonlinear_arith)
            requires
                count > 0,
        ;
        let fraction: u128 = (sum % count) * 0x4000_0000_0000 / count;
        rank::push_descending(key, sum / count);
        rank::push_descending(key, fraction);
    }
    assert(key@ =~= old(key)@ + (rank::descending(latency_whole(*stats)) + rank::descending(
        latency_fraction(*stats),
    )));
}

/// Modified hits, then locked accesses, then samples.
pub open spec fn heat(stats: C2cStats) -> Seq<i128> {
    rank::descending(stats.hitm() as int) + rank::descending(stats.locked as int)
        + rank::descending(stats.samples as int)
}

/// Appends the heat to a key.
fn push_heat(key: &mut Vec<i128>, stats: &C2cStats)
    ensures
        final(key)@ == old(key)@ + heat(*stats),
{
    rank::push_descending(key, stats.total_hitm() as u128);
    rank::push_descending(key, stats.locked as u128);
    rank::push_descending(key, stats.samples as u128);
    assert(key@ =~= old(key)@ + heat(*stats));
}

/// The hottest first, classes of equal heat in the order in which they appear.
pub struct Hottest;

impl ClassOrder for Hottest {
    open spec fn key(&self, class: Seq<C2cSample>) -> Seq<i128> {
        heat(types::stats_of(class))
    }

    fn key_of(&self, class: &Vec<&C2cSample>) -> (r: Vec<i128>) {
        let stats = classes::tally(class);
        let mut key: Vec<i128> = Vec::new();
        push_heat(&mut key, &stats);
        assert(key@ =~= self.key(classes::samples_at(class@)));
        key
    }
}

/// The hottest first, then by process and cache line.
pub struct HottestLine {
    pub size: u64,
}

impl ClassOrder for HottestLine {
    open spec fn key(&self, class: Seq<C2cSample>) -> Seq<i128> {
        heat(types::stats_of(class)) + rank::ascending(class[0].pid as int) + rank::ascending(
            address::aligned(class[0].data_address, self.size) as int,
        )
    }

    fn key_of(&self, class: &Vec<&C2cSample>) -> (r: Vec<i128>) {
        let stats = classes::tally(class);
        let mut key: Vec<i128> = Vec::new();
        push_heat(&mut key, &stats);
        rank::push_ascending(&mut key, class[0].pid as i128);
        rank::push_ascending(&mut key, address::line_of(class[0].data_address, self.size) as i128);
        assert(key@ =~= self.key(classes::samples_at(class@)));
        key
    }
}

/// The hottest first, then by offset.
pub struct HottestOffset {
    pub size: u64,
}

impl ClassOrder for HottestOffset {
    open spec fn key(&self, class: Seq<C2cSample>) -> Seq<i128> {
        heat(types::stats_of(class)) + rank::ascending(
            filter::offset_in(class[0].data_address, self.size) as int,
        )
    }

    fn key_of(&self, class: &Vec<&C2cSample>) -> (r: Vec<i128>) {
        let stats = classes::tally(class);
        let mut key: Vec<i128> = Vec::new();
        push_heat(&mut key, &stats);
        rank::push_ascending(
            &mut key,
            filter::line_offset(class[0].data_address, self.size) as i128,
        );
        assert(key@ =~= self.key(classes::samples_at(class@)));
        key
    }
}

/// The hottest first, then by CPU.
pub struct HottestCpu;

impl ClassOrder for HottestCpu {
    open spec fn key(&self, class: Seq<C2cSample>) -> Seq<i128> {
        heat(types::stats_of(class)) + rank::ascending(class[0].cpu as int)
    }

    fn key_of(&self, class: &Vec<&C2cSample>) -> (r: Vec<i128>) {
        let stats = classes::tally(class);
        let mut key: Vec<i128> = Vec::new();
        push_heat(&mut key, &stats);
        rank::push_ascending(&mut key, class[0].cpu as i128);
        assert(key@ =~= self.key(classes::samples_at(class@)));
        key
    }
}

/// Memory levels by samples, then by name.
pub struct LevelOrder;

impl ClassOrder for LevelOrder {
    open spec fn key(&self, class: Seq<C2cSample>) -> Seq<i128> {
        rank::descending(types::stats_of(class).samples as int) + rank::textual(
            class[0].data_source.level_text(),
        )
    }

    fn key_of(&self, class: &Vec<&C2cSample>) -> (r: Vec<i128>) {
        let stats = classes::tally(class);
        let mut key: Vec<i128> = Vec::new();
        rank::push_descending(&mut key, stats.samples as u128);
        rank::push_textual(&mut key, class[0].data_source.level());
        assert(key@ =~= self.key(classes::samples_at(class@)));
        key
    }
}

/// Data sources by samples, then by value.
pub struct SourceOrder;

impl ClassOrder for SourceOrder {
    open spec fn key(&self, class: Seq<C2cSample>) -> Seq<i128> {
        rank::descending(types::stats_of(class).samples as int) + rank::ascending(
            class[0].data_source.raw as int,
        )
    }

    fn key_of(&self, class: &Vec<&C2cSample>) -> (r: Vec<i128>) {
        let stats = classes::tally(class);
        let mut key: Vec<i128> = Vec::new();
        rank::push_descending(&mut key, stats.samples as u128);
        rank::push_ascending(&mut key, class[0].data_source.raw as i128);
        assert(key@ =~= self.key(classes::samples_at(class@)));
        key
    }
}

/// Regions by samples, then by path and start.
pub struct RegionOrder;

impl ClassOrder for RegionOrder {
    open spec fn key(&self, class: Seq<C2cSample>) -> Seq<i128> {
        rank::descending(types::stats_of(class).samples as int) + match filter::region_of(
            class[0].mapped_data_address,
        ) {
            Some(m) => rank::textual(m.path) + rank::ascending(m.mapping_start as int),
            None => Seq::empty(),
        }
    }

    fn key_of(&self, class: &Vec<&C2cSample>) -> (r: Vec<i128>) {
        let stats = classes::tally(class);
        let mut key: Vec<i128> = Vec::new();
        rank::push_descending(&mut key, stats.samples as u128);
        match &class[0].mapped_data_address {
            Some(m) => {
                rank::push_textual(&mut key, m.path.as_str());
                rank::push_ascending(&mut key, m.mapping_start as i128);
            },
            None => {},
        }
        assert(key@ =~= self.key(classes::samples_at(class@)));
        key
    }
}

/// Accesses by modified hits, peer answers, samples and weight, then by instruction.
pub struct AccessOrder;

impl ClassOrder for AccessOrder {
    open spec fn key(&self, class: Seq<C2cSample>) -> Seq<i128> {
        let stats = types::stats_of(class);
        rank::descending(stats.hitm() as int) + rank::descending(stats.peer() as int)
            + rank::descending(stats.samples as int) + rank::descending(stats.weight_sum as int)
            + rank::ascending(class[0].instruction_address as int)
    }

    fn key_of(&self, class: &Vec<&C2cSample>) -> (r: Vec<i128>) {
        let stats = classes::tally(class);
        let mut key: Vec<i128> = Vec::new();
        rank::push_descending(&mut key, stats.total_hitm() as u128);
        rank::push_descending(&mut key, stats.total_peer() as u128);
        rank::push_descending(&mut key, stats.samples as u128);
        rank::push_descending(&mut key, stats.weight_sum);
        rank::push_ascending(&mut key, class[0].instruction_address as i128);
        assert(key@ =~= self.key(classes::samples_at(class@)));
        key
    }
}

}
