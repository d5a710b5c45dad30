//! The times of the functions of each thread of a profile, computed when they
//! are first asked for and kept from then on.
use crate::analysis::functions;
use crate::analysis::functions::FunctionStats;
use crate::profile::resolved::ResolvedProfile;
use crate::text;
use vstd::prelude::*;

verus! {

/// The times of the functions of each thread over the whole profile, where they
/// were asked for.
#[derive(Debug)]
pub struct AnalysisCache {
    function_stats: Vec<Option<Vec<FunctionStats>>>,
}

/// The rows of a table, where there is one.
pub open spec fn opt_rows(table: Option<Vec<FunctionStats>>) -> Option<Seq<FunctionStats>> {
    match table {
        Some(rows) => Some(rows@),
        None => None,
    }
}

/// A copy of a row.
fn copy_row(row: &FunctionStats) -> (r: FunctionStats)
    ensures
        r == *row,
{
    FunctionStats {
        name: row.name.clone(),
        self_time_ms: row.self_time_ms,
        total_time_ms: row.total_time_ms,
        self_percent: row.self_percent,
        total_percent: row.total_percent,
        sample_count: row.sample_count,
        library: text::opt_clone(&row.library),
        file: text::opt_clone(&row.file),
        line: row.line,
    }
}

/// A copy of a table.
fn copy_rows(rows: &Vec<FunctionStats>) -> (r: Vec<FunctionStats>)
    ensures
        r@ == rows@,
{
    let mut copy: Vec<FunctionStats> = Vec::new();
    let mut i: usize = 0;
    while i < rows.len()
        invariant
            i <= rows@.len(),
            copy@ == rows@.take(i as int),
        decreases rows@.len() - i,
    {
        copy.push(copy_row(&rows[i]));
        assert(copy@ =~= rows@.take(i + 1));
        i += 1;
    }
    assert(rows@.take(rows@.len() as int) =~= rows@);
    copy
}

impl AnalysisCache {
    /// The tables that were asked for, by thread.
    pub closed spec fn tables(self) -> Seq<Option<Seq<FunctionStats>>> {
        Seq::new(self.function_stats@.len(), |i: int| opt_rows(self.function_stats@[i]))
    }

    /// Whether there is a place for each thread of a profile, and every table
    /// that was asked for states the times of its thread.
    pub open spec fn belongs_to(self, p: ResolvedProfile) -> bool {
        &&& self.tables().len() == p.threads@.len()
        &&& forall|i: int|
            #![trigger self.tables()[i]]
            0 <= i < self.tables().len() ==> (self.tables()[i] matches Some(rows)
                ==> functions::is_function_table(rows, p.threads@[i], p.interval_ms, None))
    }

    /// Whether a later state belongs to the same profile and still holds every
    /// table of this one.
    pub open spec fn grows_into(self, later: Self, p: ResolvedProfile) -> bool {
        &&& later.belongs_to(p)
        &&& later.tables().len() == self.tables().len()
        &&& forall|i: int|
            #![trigger later.tables()[i]]
            0 <= i < self.tables().len() && self.tables()[i] is Some ==> later.tables()[i]
                == self.tables()[i]
    }

    /// A place for each thread of a profile, with nothing computed.
    pub fn build(profile: &ResolvedProfile) -> (r: Self)
        ensures
            r.belongs_to(*profile),
            forall|i: int| 0 <= i < r.tables().len() ==> (#[trigger] r.tables()[i]) is None,
    {
        let mut function_stats: Vec<Option<Vec<FunctionStats>>> = Vec::new();
        let mut i: usize = 0;
        while i < profile.threads.len()
            invariant
                i <= profile.threads@.len(),
                function_stats@.len() == i,
                forall|k: int| 0 <= k < i ==> (#[trigger] function_stats@[k]) is None,
            decreases profile.threads@.len() - i,
        {
            function_stats.push(None);
            i += 1;
        }
        AnalysisCache { function_stats }
    }

    /// Whether the times of a thread were computed.
    pub fn is_built(&self, thread_index: usize) -> (r: bool)
        ensures
            r == (thread_index < self.tables().len() && self.tables()[thread_index as int] is Some),
    {
        thread_index < self.function_stats.len() && self.function_stats[thread_index].is_some()
    }

    /// The times of the functions of a thread over the whole profile, computed
    /// if they were not before. None where there is no such thread.
    pub fn function_stats(&mut self, profile: &ResolvedProfile, thread_index: usize) -> (r: Option<
        Vec<FunctionStats>,
    >)
        requires
            old(self).belongs_to(*profile),
        ensures
            old(self).grows_into(*final(self), *profile),
            match r {
                Some(rows) => {
                    &&& thread_index < profile.threads@.len()
                    &&& final(self).tables() == old(self).tables().update(
                        thread_index as int,
                        Some(rows@),
                    )
                },
                None => thread_index >= profile.threads@.len() && *final(self) == *old(self),
            },
    {
        if thread_index >= profile.threads.len() {
            return None;
        }
        let ghost before = self.tables();
        if let Some(rows) = &self.function_stats[thread_index] {
            let copy = copy_rows(rows);
            assert(before[thread_index as int] == Some(copy@));
            assert(before =~= before.update(thread_index as int, Some(copy@)));
            return Some(copy);
        }
        let rows = functions::compute_function_stats(
            &profile.threads[thread_index],
            profile.interval_ms,
            None,
        );
        let copy = copy_rows(&rows);
        assert(before[thread_index as int] is None);
        self.function_stats.set(thread_index, Some(rows));
        assert(self.tables() =~= before.update(thread_index as int, Some(copy@)));
        Some(copy)
    }
}

/// Tables that were computed stay through further growth.
pub proof fn lemma_grows_on(
    a: AnalysisCache,
    b: AnalysisCache,
    c: AnalysisCache,
    p: ResolvedProfile,
)
    requires
        a.grows_into(b, p),
        b.grows_into(c, p),
    ensures
        a.grows_into(c, p),
{
    assert forall|i: int|
        #![trigger c.tables()[i]]
        0 <= i < a.tables().len() && a.tables()[i] is Some implies c.tables()[i]
        == a.tables()[i] by {
        assert(b.tables()[i] == a.tables()[i]);
    }
}

}
