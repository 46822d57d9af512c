//! Candidates of the producers, their work counters and their ranking.

use crate::error::overflow_error;
use crate::error::QueryError;
use crate::error::ScanError;
use crate::ids::DocId;
use crate::ids::DocumentVersion;
use crate::ids::GlobalDocId;
use crate::ids::GlobalRowId;
use crate::rank::before;
use crate::rank::Ranked;
use crate::score::Double;
use crate::score::Score;
use vstd::prelude::*;

verus! {

/// One row of a vector search: a higher score is nearer.
#[derive(Clone, Copy, Debug, PartialEq, Eq, Structural)]
pub struct SearchCandidate {
    pub row_id: GlobalRowId,
    pub document: Option<DocumentVersion>,
    pub score: Score,
    pub exact_score: bool,
}

impl Ranked for SearchCandidate {
    /// Best score first, then by physical row.
    open spec fn rank(self) -> (int, int, int) {
        (-self.score.order(), self.row_id.source.rank(), self.row_id.local_row as int)
    }

    fn ranks_before(&self, other: &Self) -> (result: bool) {
        if other.score.below(self.score) {
            true
        } else if self.score.below(other.score) {
            false
        } else {
            self.row_id.precedes(other.row_id)
        }
    }

    fn ties_with(&self, other: &Self) -> (result: bool) {
        !self.score.below(other.score) && !other.score.below(self.score)
    }
}

/// One row of a scan over a single segment.
#[derive(Clone, Copy, Debug, PartialEq, Eq, Structural)]
pub struct ScanCandidate {
    pub row_id: usize,
    pub score: Score,
}

impl Ranked for ScanCandidate {
    /// Best score first, then by row.
    open spec fn rank(self) -> (int, int, int) {
        (-self.score.order(), self.row_id as int, 0)
    }

    fn ranks_before(&self, other: &Self) -> (result: bool) {
        if other.score.below(self.score) {
            true
        } else if self.score.below(other.score) {
            false
        } else {
            self.row_id < other.row_id
        }
    }

    fn ties_with(&self, other: &Self) -> (result: bool) {
        !self.score.below(other.score) && !other.score.below(self.score)
    }
}

/// One document of the vector leg: a smaller distance is nearer.
#[derive(Clone, Copy, Debug, PartialEq, Eq, Structural)]
pub struct VectorCandidate {
    pub document: Option<DocId>,
    pub squared_l2: Score,
    pub exact: bool,
}

impl VectorCandidate {
    /// A candidate with an exact distance.
    pub fn exact(document: Option<DocId>, squared_l2: Score) -> (candidate: VectorCandidate)
        ensures
            candidate == (VectorCandidate { document, squared_l2, exact: true }),
    {
        VectorCandidate { document, squared_l2, exact: true }
    }

    /// A candidate with an estimated distance.
    pub fn estimated(document: Option<DocId>, squared_l2: Score) -> (candidate: VectorCandidate)
        ensures
            candidate == (VectorCandidate { document, squared_l2, exact: false }),
    {
        VectorCandidate { document, squared_l2, exact: false }
    }
}

impl Ranked for VectorCandidate {
    /// Nearest first.
    open spec fn rank(self) -> (int, int, int) {
        (self.squared_l2.order(), 0, 0)
    }

    fn ranks_before(&self, other: &Self) -> (result: bool) {
        self.squared_l2.below(other.squared_l2)
    }

    fn ties_with(&self, other: &Self) -> (result: bool) {
        !self.squared_l2.below(other.squared_l2) && !other.squared_l2.below(self.squared_l2)
    }
}

/// One document of the lexical leg.
#[derive(Clone, Copy, Debug, PartialEq, Eq, Structural)]
pub struct LexicalCandidate {
    pub document: Option<DocId>,
    pub bm25: Double,
}

impl Ranked for LexicalCandidate {
    /// Best score first.
    open spec fn rank(self) -> (int, int, int) {
        (-self.bm25.order(), 0, 0)
    }

    fn ranks_before(&self, other: &Self) -> (result: bool) {
        other.bm25.below(self.bm25)
    }

    fn ties_with(&self, other: &Self) -> (result: bool) {
        !self.bm25.below(other.bm25) && !other.bm25.below(self.bm25)
    }
}

/// One lexical hit with the physical coordinates that cross-fill needs.
#[derive(Clone, Copy, Debug, PartialEq, Eq, Structural)]
pub struct LexicalHit {
    pub doc: GlobalDocId,
    pub document: Option<DocumentVersion>,
    pub bm25: Double,
}

/// Where the rows of one lexical source come from.
#[derive(Clone, Copy, Debug, PartialEq, Eq, Structural)]
pub enum StructuredLexicalSource {
    /// A sealed segment, by its place in the snapshot.
    Sealed(usize),
    /// The active segment.
    Active,
}

/// Work of one scan.
#[derive(Clone, Debug, PartialEq, Eq)]
pub struct ScanStats {
    pub dims_touched: u64,
    pub bytes_read: u64,
    pub threads_used: usize,
    pub worker_thread_ids: Vec<u64>,
}

impl ScanStats {
    /// The same statistics.
    pub fn copied(&self) -> (stats: ScanStats)
        ensures
            stats.dims_touched == self.dims_touched,
            stats.bytes_read == self.bytes_read,
            stats.threads_used == self.threads_used,
            stats.worker_thread_ids@ == self.worker_thread_ids@,
    {
        let mut worker_thread_ids: Vec<u64> = Vec::with_capacity(self.worker_thread_ids.len());
        let mut at: usize = 0;
        while at < self.worker_thread_ids.len()
            invariant
                at <= self.worker_thread_ids@.len(),
                worker_thread_ids@ == self.worker_thread_ids@.take(at as int),
            decreases self.worker_thread_ids.len() - at,
        {
            worker_thread_ids.push(self.worker_thread_ids[at]);
            proof {
                assert(self.worker_thread_ids@.take(at + 1) == self.worker_thread_ids@.take(
                    at as int,
                ).push(self.worker_thread_ids@[at as int]));
            }
            at = at + 1;
        }
        assert(self.worker_thread_ids@.take(at as int) == self.worker_thread_ids@);
        ScanStats {
            dims_touched: self.dims_touched,
            bytes_read: self.bytes_read,
            threads_used: self.threads_used,
            worker_thread_ids,
        }
    }
}

/// Result of one scan.
#[derive(Clone, Debug, PartialEq, Eq)]
pub struct ScanOutcome {
    pub candidates: Vec<ScanCandidate>,
    pub worst_score: Option<Score>,
    pub stats: ScanStats,
}

/// Work of graph traversals.
#[derive(Clone, Copy, Debug, PartialEq, Eq, Structural)]
pub struct GraphSearchStats {
    pub segments_traversed: usize,
    pub graph_validations: usize,
    pub entry_seed_discoveries: usize,
    pub visited_epoch_clears: usize,
    pub candidates_scored: usize,
    pub candidates_rescored: usize,
    pub segments_pruned_by_bound: usize,
}

impl GraphSearchStats {
    /// No work.
    pub open spec fn spec_zero() -> GraphSearchStats {
        GraphSearchStats {
            segments_traversed: 0,
            graph_validations: 0,
            entry_seed_discoveries: 0,
            visited_epoch_clears: 0,
            candidates_scored: 0,
            candidates_rescored: 0,
            segments_pruned_by_bound: 0,
        }
    }

    /// No work.
    pub fn zero() -> (stats: GraphSearchStats)
        ensures
            stats == Self::spec_zero(),
    {
        GraphSearchStats {
            segments_traversed: 0,
            graph_validations: 0,
            entry_seed_discoveries: 0,
            visited_epoch_clears: 0,
            candidates_scored: 0,
            candidates_rescored: 0,
            segments_pruned_by_bound: 0,
        }
    }

    /// Whether the first `n` counters of the sum fit.
    pub open spec fn first_fit(self, delta: GraphSearchStats, n: nat) -> bool {
        &&& n >= 1 ==> self.segments_traversed + delta.segments_traversed <= usize::MAX
        &&& n >= 2 ==> self.graph_validations + delta.graph_validations <= usize::MAX
        &&& n >= 3 ==> self.entry_seed_discoveries + delta.entry_seed_discoveries <= usize::MAX
        &&& n >= 4 ==> self.visited_epoch_clears + delta.visited_epoch_clears <= usize::MAX
        &&& n >= 5 ==> self.candidates_scored + delta.candidates_scored <= usize::MAX
        &&& n >= 6 ==> self.candidates_rescored + delta.candidates_rescored <= usize::MAX
        &&& n >= 7 ==> self.segments_pruned_by_bound + delta.segments_pruned_by_bound <= usize::MAX
    }

    /// Whether every counter of the sum fits.
    pub open spec fn sum_fits(self, delta: GraphSearchStats) -> bool {
        self.first_fit(delta, 7)
    }

    /// The sum up to the first counter that overflows.
    pub open spec fn partly_sum(self, delta: GraphSearchStats) -> GraphSearchStats {
        GraphSearchStats {
            segments_traversed: if self.first_fit(delta, 1) {
                (self.segments_traversed + delta.segments_traversed) as usize
            } else {
                self.segments_traversed
            },
            graph_validations: if self.first_fit(delta, 2) {
                (self.graph_validations + delta.graph_validations) as usize
            } else {
                self.graph_validations
            },
            entry_seed_discoveries: if self.first_fit(delta, 3) {
                (self.entry_seed_discoveries + delta.entry_seed_discoveries) as usize
            } else {
                self.entry_seed_discoveries
            },
            visited_epoch_clears: if self.first_fit(delta, 4) {
                (self.visited_epoch_clears + delta.visited_epoch_clears) as usize
            } else {
                self.visited_epoch_clears
            },
            candidates_scored: if self.first_fit(delta, 5) {
                (self.candidates_scored + delta.candidates_scored) as usize
            } else {
                self.candidates_scored
            },
            candidates_rescored: if self.first_fit(delta, 6) {
                (self.candidates_rescored + delta.candidates_rescored) as usize
            } else {
                self.candidates_rescored
            },
            segments_pruned_by_bound: if self.first_fit(delta, 7) {
                (self.segments_pruned_by_bound + delta.segments_pruned_by_bound) as usize
            } else {
                self.segments_pruned_by_bound
            },
        }
    }

    /// The sum, counter by counter.
    pub open spec fn sum(self, delta: GraphSearchStats) -> GraphSearchStats {
        GraphSearchStats {
            segments_traversed: (self.segments_traversed + delta.segments_traversed) as usize,
            graph_validations: (self.graph_validations + delta.graph_validations) as usize,
            entry_seed_discoveries: (self.entry_seed_discoveries
                + delta.entry_seed_discoveries) as usize,
            visited_epoch_clears: (self.visited_epoch_clears + delta.visited_epoch_clears) as usize,
            candidates_scored: (self.candidates_scored + delta.candidates_scored) as usize,
            candidates_rescored: (self.candidates_rescored + delta.candidates_rescored) as usize,
            segments_pruned_by_bound: (self.segments_pruned_by_bound
                + delta.segments_pruned_by_bound) as usize,
        }
    }
}

fn checked_sum(left: usize, right: usize) -> (result: Result<usize, QueryError>)
    ensures
        result == if left + right <= usize::MAX {
            Ok((left + right) as usize)
        } else {
            Err(overflow_error())
        },
{
    match left.checked_add(right) {
        Some(sum) => Ok(sum),
        None => Err(QueryError::Scan(ScanError::ArithmeticOverflow)),
    }
}

/// Adds the work of one traversal, counter by counter; the first that overflows
/// ends it.
pub fn add_traversal_stats(stats: &mut GraphSearchStats, delta: GraphSearchStats) -> (result: Result<
    (),
    QueryError,
>)
    ensures
        *final(stats) == old(stats).partly_sum(delta),
        if old(stats).sum_fits(delta) {
            result is Ok && *final(stats) == old(stats).sum(delta)
        } else {
            result == Err::<(), QueryError>(overflow_error())
        },
{
    stats.segments_traversed = checked_sum(stats.segments_traversed, delta.segments_traversed)?;
    stats.graph_validations = checked_sum(stats.graph_validations, delta.graph_validations)?;
    stats.entry_seed_discoveries = checked_sum(
        stats.entry_seed_discoveries,
        delta.entry_seed_discoveries,
    )?;
    stats.visited_epoch_clears = checked_sum(
        stats.visited_epoch_clears,
        delta.visited_epoch_clears,
    )?;
    stats.candidates_scored = checked_sum(stats.candidates_scored, delta.candidates_scored)?;
    stats.candidates_rescored = checked_sum(stats.candidates_rescored, delta.candidates_rescored)?;
    stats.segments_pruned_by_bound = checked_sum(
        stats.segments_pruned_by_bound,
        delta.segments_pruned_by_bound,
    )?;
    Ok(())
}

/// Work of lexical scoring.
#[derive(Clone, Copy, Debug, PartialEq, Eq, Structural)]
pub struct SearchCounters {
    pub docs_evaluated: u64,
    pub postings_decoded: u64,
    pub blocks_decoded: u64,
    pub blocks_skipped: u64,
}

/// A sum that stays at its type's maximum.
pub open spec fn saturating_sum(left: u64, right: u64) -> u64 {
    if left + right > u64::MAX {
        u64::MAX
    } else {
        (left + right) as u64
    }
}

impl SearchCounters {
    /// No work.
    pub open spec fn spec_zero() -> SearchCounters {
        SearchCounters {
            docs_evaluated: 0,
            postings_decoded: 0,
            blocks_decoded: 0,
            blocks_skipped: 0,
        }
    }

    /// No work.
    pub fn zero() -> (counters: SearchCounters)
        ensures
            counters == Self::spec_zero(),
    {
        SearchCounters {
            docs_evaluated: 0,
            postings_decoded: 0,
            blocks_decoded: 0,
            blocks_skipped: 0,
        }
    }

    /// The sum, counter by counter; a full counter stays full.
    pub open spec fn sum(self, delta: SearchCounters) -> SearchCounters {
        SearchCounters {
            docs_evaluated: saturating_sum(self.docs_evaluated, delta.docs_evaluated),
            postings_decoded: saturating_sum(self.postings_decoded, delta.postings_decoded),
            blocks_decoded: saturating_sum(self.blocks_decoded, delta.blocks_decoded),
            blocks_skipped: saturating_sum(self.blocks_skipped, delta.blocks_skipped),
        }
    }
}

/// Adds the work of one lexical search.
pub fn accumulate_search_counters(total: &mut SearchCounters, delta: &SearchCounters)
    ensures
        *final(total) == old(total).sum(*delta),
{
    total.docs_evaluated = total.docs_evaluated.saturating_add(delta.docs_evaluated);
    total.postings_decoded = total.postings_decoded.saturating_add(delta.postings_decoded);
    total.blocks_decoded = total.blocks_decoded.saturating_add(delta.blocks_decoded);
    total.blocks_skipped = total.blocks_skipped.saturating_add(delta.blocks_skipped);
}

/// `ids` followed by the members of `more` that do not occur before, each once.
pub open spec fn distinct_union(ids: Seq<u64>, more: Seq<u64>) -> Seq<u64>
    decreases more.len(),
{
    if more.len() == 0 {
        ids
    } else {
        let before = distinct_union(ids, more.drop_last());
        if before.contains(more.last()) {
            before
        } else {
            before.push(more.last())
        }
    }
}

/// Adds the workers that are not listed yet, in order.
pub fn add_workers(ids: &mut Vec<u64>, more: &Vec<u64>)
    ensures
        final(ids)@ == distinct_union(old(ids)@, more@),
{
    let mut at: usize = 0;
    while at < more.len()
        invariant
            at <= more@.len(),
            ids@ == distinct_union(old(ids)@, more@.take(at as int)),
        decreases more.len() - at,
    {
        let ghost prefix = more@.take(at + 1);
        assert(prefix.drop_last() == more@.take(at as int));
        assert(prefix.last() == more@[at as int]);
        if !holds_worker(ids, more[at]) {
            ids.push(more[at]);
        }
        at = at + 1;
    }
    assert(more@.take(at as int) == more@);
}

/// Whether a worker is listed.
pub fn holds_worker(ids: &Vec<u64>, id: u64) -> (result: bool)
    ensures
        result == ids@.contains(id),
{
    let mut at: usize = 0;
    while at < ids.len()
        invariant
            at <= ids@.len(),
            forall|i: int| 0 <= i < at ==> ids@[i] != id,
        decreases ids.len() - at,
    {
        if ids[at] == id {
            return true;
        }
        at = at + 1;
    }
    false
}

/// A list without repetition stays without repetition.
pub proof fn lemma_distinct_union_has_no_duplicates(ids: Seq<u64>, more: Seq<u64>)
    requires
        ids.no_duplicates(),
    ensures
        distinct_union(ids, more).no_duplicates(),
        forall|id: u64|
            #[trigger] distinct_union(ids, more).contains(id) <==> ids.contains(id)
                || more.contains(id),
    decreases more.len(),
{
    if more.len() > 0 {
        let shorter = more.drop_last();
        lemma_distinct_union_has_no_duplicates(ids, shorter);
        let earlier = distinct_union(ids, shorter);
        let out = distinct_union(ids, more);
        assert forall|id: u64| #[trigger] out.contains(id) <==> ids.contains(id) || more.contains(
            id,
        ) by {
            assert(more == shorter.push(more.last()));
            assert(earlier.contains(id) <==> ids.contains(id) || shorter.contains(id));
            if out.contains(id) {
                let i = choose|i: int| 0 <= i < out.len() && out[i] == id;
                if i < earlier.len() {
                    assert(earlier[i] == id);
                    if shorter.contains(id) {
                        let j = choose|j: int| 0 <= j < shorter.len() && shorter[j] == id;
                        assert(more[j] == id);
                    }
                } else {
                    assert(more[more.len() - 1] == id);
                }
            }
            if ids.contains(id) || more.contains(id) {
                if ids.contains(id) || shorter.contains(id) {
                    let i = choose|i: int| 0 <= i < earlier.len() && earlier[i] == id;
                    assert(out[i] == id);
                } else {
                    let j = choose|j: int| 0 <= j < more.len() && more[j] == id;
                    if j < shorter.len() {
                        assert(shorter[j] == id);
                    }
                    assert(id == more.last());
                    if !earlier.contains(id) {
                        assert(out[out.len() - 1] == id);
                    }
                }
            }
        }
    }
}

} // verus!
