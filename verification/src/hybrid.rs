//! Bounded producers of a hybrid query: windows, work and round buffers.
//!
//! Each leg supplies a candidate window. The item behind an approximate window
//! describes only that producer's list, so only certified coverage and complete
//! scores let a fusion stop count as a certificate.

use crate::accounting::Accounted;
use crate::accounting::Accounting;
use crate::accounting::AllocationComponent;
use crate::candidates::accumulate_search_counters;
use crate::candidates::add_traversal_stats;
use crate::candidates::add_workers;
use crate::candidates::distinct_union;
use crate::candidates::lemma_distinct_union_has_no_duplicates;
use crate::candidates::GraphSearchStats;
use crate::candidates::LexicalCandidate;
use crate::candidates::ScanStats;
use crate::candidates::SearchCandidate;
use crate::candidates::SearchCounters;
use crate::candidates::VectorCandidate;
use crate::error::overflow_error;
use crate::error::QueryError;
use crate::error::ScanError;
use crate::error::StoreError;
use crate::exhaustive::VALUE_BYTES;
use crate::fusion::CandidateCoverage;
use crate::fusion::FusionError;
use crate::fusion::FusionLeg;
use crate::fusion::FusionOutcome;
use crate::fusion::FusionTermination;
use crate::fusion::HybridProvenance;
use crate::fusion::ScorePrecision;
use crate::identity::PhysicalIdentity;
use crate::observations::saw_candidate_bytes;
use crate::observations::saw_round_start;
use crate::observations::saw_union_bytes;
use crate::observations::saw_union_start;
use crate::observations::HybridScoreObserver;
use crate::observations::ObservedScoring;
use crate::plan::SegmentPlan;
use crate::round::HybridRound;
use vstd::prelude::*;

verus! {

/// Rows that a window asks for per requested hit.
pub const HYBRID_WINDOW_PER_K: usize = 5;

/// Rows that a window asks for at least.
pub const HYBRID_WINDOW_FLOOR: usize = 50;

/// How the scan engine words an arithmetic overflow.
pub const OVERFLOW_TEXT: &'static str = "scan arithmetic overflow";

/// The hybrid failure that stands for an arithmetic overflow.
pub open spec fn is_overflow(error: FusionError) -> bool {
    error.stands_for(overflow_error(), FusionLeg::Vector, OVERFLOW_TEXT@)
}

/// The hybrid failure that stands for a refused allocation.
pub open spec fn is_refusal(error: FusionError, refusal: StoreError) -> bool {
    error.stands_for(QueryError::Store(refusal), FusionLeg::Vector, ""@)
}

pub(crate) fn overflow() -> (error: FusionError)
    ensures
        is_overflow(error),
{
    FusionError::from_query(
        QueryError::Scan(ScanError::ArithmeticOverflow),
        FusionLeg::Vector,
        OVERFLOW_TEXT,
    )
}

pub(crate) fn refusal(error: StoreError) -> (result: FusionError)
    ensures
        is_refusal(result, error),
{
    FusionError::from_query(QueryError::Store(error), FusionLeg::Vector, "")
}

/// Requested window of both legs.
#[derive(Clone, Copy, Debug, PartialEq, Eq, Structural)]
pub struct HybridWindow {
    pub width: usize,
}

/// Width of a window for `k` hits over `corpus_rows` rows.
pub open spec fn window_width(k: nat, corpus_rows: nat) -> nat {
    let wanted = if HYBRID_WINDOW_PER_K * k > HYBRID_WINDOW_FLOOR {
        (HYBRID_WINDOW_PER_K * k) as nat
    } else {
        HYBRID_WINDOW_FLOOR as nat
    };
    if k == 0 {
        0
    } else if wanted < corpus_rows {
        wanted
    } else {
        corpus_rows
    }
}

/// Resolves the window of one hybrid round: a multiple of `k`, at least the
/// floor and at most the corpus; a `k` of zero asks for nothing.
pub fn hybrid_window(k: usize, corpus_rows: usize) -> (result: Result<HybridWindow, FusionError>)
    ensures
        match result {
            Ok(window) => HYBRID_WINDOW_PER_K * k <= usize::MAX && window.width == window_width(
                k as nat,
                corpus_rows as nat,
            ),
            Err(error) => HYBRID_WINDOW_PER_K * k > usize::MAX && is_overflow(error),
        },
{
    if k == 0 {
        return Ok(HybridWindow { width: 0 });
    }
    let per_k: usize = match HYBRID_WINDOW_PER_K.checked_mul(k) {
        Some(value) => value,
        None => {
            return Err(overflow());
        },
    };
    let wanted: usize = if per_k > HYBRID_WINDOW_FLOOR {
        per_k
    } else {
        HYBRID_WINDOW_FLOOR
    };
    let width: usize = if wanted < corpus_rows {
        wanted
    } else {
        corpus_rows
    };
    Ok(HybridWindow { width })
}

/// A window asks for at least the requested hits and never for more rows than
/// there are, and it grows with both.
pub proof fn lemma_window_is_clamped(k: nat, more: nat, corpus_rows: nat, rows: nat)
    requires
        k <= more,
        corpus_rows <= rows,
    ensures
        window_width(k, corpus_rows) <= corpus_rows,
        k <= corpus_rows ==> k <= window_width(k, corpus_rows),
        window_width(k, corpus_rows) <= window_width(more, corpus_rows),
        window_width(k, corpus_rows) <= window_width(k, rows),
{
}

/// Sum of row counts.
pub open spec fn row_sum(active_rows: int, segment_rows: Seq<u32>) -> int
    decreases segment_rows.len(),
{
    if segment_rows.len() == 0 {
        active_rows
    } else {
        row_sum(active_rows, segment_rows.drop_last()) + segment_rows.last()
    }
}

proof fn lemma_row_sum_grows(active_rows: int, segment_rows: Seq<u32>, n: int)
    requires
        0 <= n <= segment_rows.len(),
    ensures
        row_sum(active_rows, segment_rows.take(n)) <= row_sum(active_rows, segment_rows),
    decreases segment_rows.len() - n,
{
    if n < segment_rows.len() {
        assert(segment_rows.take(n + 1).drop_last() == segment_rows.take(n));
        lemma_row_sum_grows(active_rows, segment_rows, n + 1);
    } else {
        assert(segment_rows.take(n) == segment_rows);
    }
}

/// Rows that one hybrid query can reach, tombstoned or not.
pub fn corpus_rows(active_rows: usize, segment_rows: &Vec<u32>) -> (result: Result<
    usize,
    FusionError,
>)
    ensures
        match result {
            Ok(total) => total == row_sum(active_rows as int, segment_rows@),
            Err(error) => row_sum(active_rows as int, segment_rows@) > usize::MAX && is_overflow(
                error,
            ),
        },
{
    let mut total: usize = active_rows;
    let mut at: usize = 0;
    while at < segment_rows.len()
        invariant
            at <= segment_rows@.len(),
            total == row_sum(active_rows as int, segment_rows@.take(at as int)),
        decreases segment_rows.len() - at,
    {
        let ghost prefix = segment_rows@.take(at + 1);
        assert(prefix.drop_last() == segment_rows@.take(at as int));
        assert(prefix.last() == segment_rows@[at as int]);
        match total.checked_add(segment_rows[at] as usize) {
            Some(sum) => {
                total = sum;
            },
            None => {
                proof {
                    lemma_row_sum_grows(active_rows as int, segment_rows@, at + 1);
                }
                return Err(overflow());
            },
        }
        at = at + 1;
    }
    assert(segment_rows@.take(at as int) == segment_rows@);
    Ok(total)
}

/// Work of one completed step of a hybrid query: a round of the two producers, or
/// the scores that a round computed across the windows.
pub struct WorkReceipt {
    pub dims: int,
    pub bytes: int,
    pub workers: Seq<u64>,
    pub graph: GraphSearchStats,
    pub lexical: SearchCounters,
}

impl WorkReceipt {
    /// No work.
    pub open spec fn empty() -> WorkReceipt {
        WorkReceipt {
            dims: 0,
            bytes: 0,
            workers: Seq::empty(),
            graph: GraphSearchStats::spec_zero(),
            lexical: SearchCounters::spec_zero(),
        }
    }

    /// The work of one round of the producers.
    pub open spec fn of_round(
        scan: ScanStats,
        graph: GraphSearchStats,
        lexical: SearchCounters,
    ) -> WorkReceipt {
        WorkReceipt {
            dims: scan.dims_touched as int,
            bytes: scan.bytes_read as int,
            workers: scan.worker_thread_ids@,
            graph,
            lexical,
        }
    }

    /// The work of the scores that `round` computed across the windows: each
    /// distance reads the `dimension` values of one stored row.
    pub open spec fn of_fill(round: HybridRound, dimension: usize) -> WorkReceipt {
        WorkReceipt {
            dims: round.vector_scores_computed * dimension,
            bytes: round.vector_scores_computed * dimension * VALUE_BYTES,
            lexical: round.lexical_counters,
            ..WorkReceipt::empty()
        }
    }

    /// Both works. Distinct executors are counted, not their uses.
    pub open spec fn plus(self, more: WorkReceipt) -> WorkReceipt {
        WorkReceipt {
            dims: self.dims + more.dims,
            bytes: self.bytes + more.bytes,
            workers: distinct_union(self.workers, more.workers),
            graph: self.graph.sum(more.graph),
            lexical: self.lexical.sum(more.lexical),
        }
    }
}

/// All of the work.
pub open spec fn total_work(receipts: Seq<WorkReceipt>) -> WorkReceipt
    decreases receipts.len(),
{
    if receipts.len() == 0 {
        WorkReceipt::empty()
    } else {
        total_work(receipts.drop_last()).plus(receipts.last())
    }
}

proof fn lemma_workers_are_distinct(receipts: Seq<WorkReceipt>)
    ensures
        total_work(receipts).workers.no_duplicates(),
    decreases receipts.len(),
{
    if receipts.len() > 0 {
        lemma_workers_are_distinct(receipts.drop_last());
        lemma_distinct_union_has_no_duplicates(
            total_work(receipts.drop_last()).workers,
            receipts.last().workers,
        );
    }
}

/// No step is lost: the total holds at least the values, the bytes and the
/// executors of each, and names no executor twice.
pub proof fn lemma_every_step_counts(receipts: Seq<WorkReceipt>, at: int)
    requires
        0 <= at < receipts.len(),
        forall|i: int|
            0 <= i < receipts.len() ==> (#[trigger] receipts[i]).dims >= 0 && receipts[i].bytes
                >= 0,
    ensures
        receipts[at].dims <= total_work(receipts).dims,
        receipts[at].bytes <= total_work(receipts).bytes,
        forall|id: u64| #[trigger]
            receipts[at].workers.contains(id) ==> total_work(receipts).workers.contains(id),
        total_work(receipts).workers.no_duplicates(),
    decreases receipts.len(),
{
    let shorter = receipts.drop_last();
    lemma_workers_are_distinct(receipts);
    lemma_workers_are_distinct(shorter);
    lemma_distinct_union_has_no_duplicates(total_work(shorter).workers, receipts.last().workers);
    if at < shorter.len() {
        lemma_every_step_counts(shorter, at);
    } else {
        lemma_total_is_not_negative(shorter);
    }
    assert(receipts.last() == receipts[receipts.len() - 1]);
}

proof fn lemma_total_is_not_negative(receipts: Seq<WorkReceipt>)
    requires
        forall|i: int|
            0 <= i < receipts.len() ==> (#[trigger] receipts[i]).dims >= 0 && receipts[i].bytes
                >= 0,
    ensures
        total_work(receipts).dims >= 0,
        total_work(receipts).bytes >= 0,
    decreases receipts.len(),
{
    if receipts.len() > 0 {
        lemma_total_is_not_negative(receipts.drop_last());
        assert(receipts.last() == receipts[receipts.len() - 1]);
    }
}

/// Completed producer work of a hybrid query.
#[derive(Debug)]
pub struct HybridWork {
    pub scan: ScanStats,
    pub graph: GraphSearchStats,
    pub lexical: SearchCounters,
    pub plans: Vec<SegmentPlan>,
    pub lexical_cache_hits: usize,
    pub lexical_cache_builds: usize,
    pub cross_filled_vector: usize,
    pub cross_filled_lexical: usize,
    pub vector_candidates_produced: usize,
    pub lexical_candidates_produced: usize,
}

impl HybridWork {
    /// Whether the sums are those of the given steps, none left out.
    pub open spec fn is_work_of(self, receipts: Seq<WorkReceipt>) -> bool {
        let total = total_work(receipts);
        &&& self.scan.dims_touched == total.dims
        &&& self.scan.bytes_read == total.bytes
        &&& self.scan.worker_thread_ids@ == total.workers
        &&& self.scan.threads_used == total.workers.len()
        &&& self.graph == total.graph
        &&& self.lexical == total.lexical
    }

    /// No work.
    pub fn new() -> (work: HybridWork)
        ensures
            work.is_work_of(Seq::empty()),
            work.scan.dims_touched == 0,
            work.scan.bytes_read == 0,
            work.scan.threads_used == 0,
            work.scan.worker_thread_ids@.len() == 0,
            work.graph == GraphSearchStats::spec_zero(),
            work.lexical == SearchCounters::spec_zero(),
            work.plans@.len() == 0,
            work.lexical_cache_hits == 0,
            work.lexical_cache_builds == 0,
            work.cross_filled_vector == 0,
            work.cross_filled_lexical == 0,
            work.vector_candidates_produced == 0,
            work.lexical_candidates_produced == 0,
    {
        HybridWork {
            scan: ScanStats {
                dims_touched: 0,
                bytes_read: 0,
                threads_used: 0,
                worker_thread_ids: Vec::new(),
            },
            graph: GraphSearchStats::zero(),
            lexical: SearchCounters::zero(),
            plans: Vec::new(),
            lexical_cache_hits: 0,
            lexical_cache_builds: 0,
            cross_filled_vector: 0,
            cross_filled_lexical: 0,
            vector_candidates_produced: 0,
            lexical_candidates_produced: 0,
        }
    }

    /// Whether the scan sums with one more round fit: the values, and the bytes
    /// where `bytes` asks for them.
    pub open spec fn scan_fits(self, scan: ScanStats, bytes: bool) -> bool {
        &&& self.scan.dims_touched + scan.dims_touched <= u64::MAX
        &&& bytes ==> self.scan.bytes_read + scan.bytes_read <= u64::MAX
    }

    /// Whether the sums with one more round fit.
    pub open spec fn round_fits(self, scan: ScanStats, graph: GraphSearchStats) -> bool {
        self.scan_fits(scan, true) && self.graph.sum_fits(graph)
    }

    /// Everything that a completed step does not touch.
    pub open spec fn same_fill(self, other: HybridWork) -> bool {
        &&& self.plans == other.plans
        &&& self.lexical_cache_hits == other.lexical_cache_hits
        &&& self.lexical_cache_builds == other.lexical_cache_builds
        &&& self.cross_filled_vector == other.cross_filled_vector
        &&& self.cross_filled_lexical == other.cross_filled_lexical
        &&& self.vector_candidates_produced == other.vector_candidates_produced
        &&& self.lexical_candidates_produced == other.lexical_candidates_produced
    }

    /// Adds the receipts of one completed round. Distinct executors are counted,
    /// not their uses. The sums are formed in order, and the first that overflows
    /// ends it.
    pub fn complete_round(
        &mut self,
        scan: &ScanStats,
        graph: GraphSearchStats,
        lexical: SearchCounters,
    ) -> (result: Result<(), QueryError>)
        ensures
            final(self).same_fill(*old(self)),
            result == if old(self).round_fits(*scan, graph) {
                Ok::<(), QueryError>(())
            } else {
                Err(overflow_error())
            },
            final(self).scan.dims_touched == if old(self).scan_fits(*scan, false) {
                (old(self).scan.dims_touched + scan.dims_touched) as u64
            } else {
                old(self).scan.dims_touched
            },
            final(self).scan.bytes_read == if old(self).scan_fits(*scan, true) {
                (old(self).scan.bytes_read + scan.bytes_read) as u64
            } else {
                old(self).scan.bytes_read
            },
            if old(self).scan_fits(*scan, true) {
                &&& final(self).scan.worker_thread_ids@ == distinct_union(
                    old(self).scan.worker_thread_ids@,
                    scan.worker_thread_ids@,
                )
                &&& final(self).scan.threads_used == final(self).scan.worker_thread_ids@.len()
                &&& final(self).graph == old(self).graph.partly_sum(graph)
            } else {
                &&& final(self).scan.worker_thread_ids@ == old(self).scan.worker_thread_ids@
                &&& final(self).scan.threads_used == old(self).scan.threads_used
                &&& final(self).graph == old(self).graph
            },
            final(self).lexical == if old(self).round_fits(*scan, graph) {
                old(self).lexical.sum(lexical)
            } else {
                old(self).lexical
            },
            result is Ok ==> forall|receipts: Seq<WorkReceipt>| #[trigger]
                old(self).is_work_of(receipts) ==> final(self).is_work_of(
                    receipts.push(WorkReceipt::of_round(*scan, graph, lexical)),
                ),
    {
        self.scan.dims_touched = match self.scan.dims_touched.checked_add(scan.dims_touched) {
            Some(value) => value,
            None => {
                return Err(QueryError::Scan(ScanError::ArithmeticOverflow));
            },
        };
        self.scan.bytes_read = match self.scan.bytes_read.checked_add(scan.bytes_read) {
            Some(value) => value,
            None => {
                return Err(QueryError::Scan(ScanError::ArithmeticOverflow));
            },
        };
        add_workers(&mut self.scan.worker_thread_ids, &scan.worker_thread_ids);
        self.scan.threads_used = self.scan.worker_thread_ids.len();
        add_traversal_stats(&mut self.graph, graph)?;
        accumulate_search_counters(&mut self.lexical, &lexical);
        proof {
            let receipt = WorkReceipt::of_round(*scan, graph, lexical);
            assert forall|receipts: Seq<WorkReceipt>| #[trigger]
                old(self).is_work_of(receipts) implies self.is_work_of(receipts.push(receipt)) by {
                assert(receipts.push(receipt).drop_last() == receipts);
            }
        }
        Ok(())
    }

    /// Whether the scan sums with the scores that a round computed fit.
    pub open spec fn fill_fits(self, round: HybridRound, dimension: usize) -> bool {
        let values = round.vector_scores_computed * dimension;
        &&& values * VALUE_BYTES <= u64::MAX
        &&& self.scan.dims_touched + values <= u64::MAX
        &&& self.scan.bytes_read + values * VALUE_BYTES <= u64::MAX
    }

    /// Adds the scores that a round computed across the windows: the values of the
    /// rows whose distance was computed, their bytes, and the lexical work. Where a
    /// sum overflows, nothing is added.
    pub fn complete_fill(&mut self, round: &HybridRound, dimension: usize) -> (result: Result<
        (),
        QueryError,
    >)
        ensures
            if old(self).fill_fits(*round, dimension) {
                let values = round.vector_scores_computed * dimension;
                &&& result is Ok
                &&& final(self).same_fill(*old(self))
                &&& final(self).scan.dims_touched == old(self).scan.dims_touched + values
                &&& final(self).scan.bytes_read == old(self).scan.bytes_read + values * VALUE_BYTES
                &&& final(self).scan.worker_thread_ids == old(self).scan.worker_thread_ids
                &&& final(self).scan.threads_used == old(self).scan.threads_used
                &&& final(self).graph == old(self).graph
                &&& final(self).lexical == old(self).lexical.sum(round.lexical_counters)
            } else {
                &&& result == Err::<(), QueryError>(overflow_error())
                &&& *final(self) == *old(self)
            },
            result is Ok ==> forall|receipts: Seq<WorkReceipt>| #[trigger]
                old(self).is_work_of(receipts) ==> final(self).is_work_of(
                    receipts.push(WorkReceipt::of_fill(*round, dimension)),
                ),
    {
        let computed: u64 = round.vector_scores_computed as u64;
        let values: u64 = match computed.checked_mul(dimension as u64) {
            Some(values) => values,
            None => {
                return Err(QueryError::Scan(ScanError::ArithmeticOverflow));
            },
        };
        let bytes: u64 = match values.checked_mul(VALUE_BYTES) {
            Some(bytes) => bytes,
            None => {
                return Err(QueryError::Scan(ScanError::ArithmeticOverflow));
            },
        };
        let dims_touched: u64 = match self.scan.dims_touched.checked_add(values) {
            Some(value) => value,
            None => {
                return Err(QueryError::Scan(ScanError::ArithmeticOverflow));
            },
        };
        let bytes_read: u64 = match self.scan.bytes_read.checked_add(bytes) {
            Some(value) => value,
            None => {
                return Err(QueryError::Scan(ScanError::ArithmeticOverflow));
            },
        };
        self.scan.dims_touched = dims_touched;
        self.scan.bytes_read = bytes_read;
        accumulate_search_counters(&mut self.lexical, &round.lexical_counters);
        proof {
            let receipt = WorkReceipt::of_fill(*round, dimension);
            assert forall|receipts: Seq<WorkReceipt>| #[trigger]
                old(self).is_work_of(receipts) implies self.is_work_of(receipts.push(receipt)) by {
                assert(receipts.push(receipt).drop_last() == receipts);
            }
        }
        Ok(())
    }
}

/// Candidate and physical-union buffers of one admission.
#[derive(Debug)]
pub struct HybridRoundBuffers {
    pub vector_keys: Accounted<PhysicalIdentity>,
    pub lexical_keys: Accounted<PhysicalIdentity>,
    pub vector: Accounted<VectorCandidate>,
    pub lexical: Accounted<LexicalCandidate>,
    pub missing: Accounted<SearchCandidate>,
    pub newly_missing: Accounted<SearchCandidate>,
    pub resident_bytes: u64,
    pub peak_bytes: u64,
}

/// A buffer charged to the temporary ceiling.
pub open spec fn is_scratch<T>(buffer: Accounted<T>) -> bool {
    buffer.well_formed() && buffer.component == AllocationComponent::Temporary
}

impl HybridRoundBuffers {
    /// Bytes charged for all six buffers.
    pub open spec fn charged_bytes(self) -> int {
        self.vector_keys.bytes + self.lexical_keys.bytes + self.vector.bytes + self.lexical.bytes
            + self.missing.bytes + self.newly_missing.bytes
    }

    /// The recorded total is what the six buffers were charged.
    pub open spec fn well_formed(self) -> bool {
        &&& is_scratch(self.vector_keys)
        &&& is_scratch(self.lexical_keys)
        &&& is_scratch(self.vector)
        &&& is_scratch(self.lexical)
        &&& is_scratch(self.missing)
        &&& is_scratch(self.newly_missing)
        &&& self.resident_bytes == self.charged_bytes()
    }

    /// The totals hold at least what these buffers were charged.
    pub open spec fn covered_by(self, accounting: Accounting) -> bool {
        self.resident_bytes <= accounting.resident && self.resident_bytes <= accounting.temporary
    }

    /// All six buffers hold no item.
    pub open spec fn all_empty(self) -> bool {
        &&& self.vector_keys.items@.len() == 0
        &&& self.lexical_keys.items@.len() == 0
        &&& self.vector.items@.len() == 0
        &&& self.lexical.items@.len() == 0
        &&& self.missing.items@.len() == 0
        &&& self.newly_missing.items@.len() == 0
    }

    /// Room for windows of these sizes and their union.
    pub open spec fn has_room(self, vector: int, lexical: int) -> bool {
        &&& vector <= self.vector_keys.capacity
        &&& lexical <= self.lexical_keys.capacity
        &&& vector + lexical <= self.vector.capacity
        &&& vector + lexical <= self.lexical.capacity
        &&& vector <= self.missing.capacity
        &&& vector <= self.newly_missing.capacity
    }

    /// Whether one total changed by what the buffers' charge changed.
    pub open spec fn moves_with(
        before: HybridRoundBuffers,
        after: HybridRoundBuffers,
        accounts: Accounting,
        settled: Accounting,
    ) -> bool {
        &&& settled.budgets == accounts.budgets
        &&& settled.temporary - accounts.temporary == after.resident_bytes - before.resident_bytes
        &&& settled.resident - accounts.resident == after.resident_bytes - before.resident_bytes
    }

    /// Empty buffers without charge.
    pub fn new() -> (buffers: HybridRoundBuffers)
        ensures
            buffers.well_formed(),
            buffers.all_empty(),
            buffers.resident_bytes == 0,
            buffers.peak_bytes == 0,
            forall|vector: int, lexical: int|
                #[trigger] buffers.has_room(vector, lexical) <==> vector <= 0 && lexical <= 0
                    && vector + lexical <= 0,
    {
        HybridRoundBuffers {
            vector_keys: Accounted::unaccounted_empty(AllocationComponent::Temporary),
            lexical_keys: Accounted::unaccounted_empty(AllocationComponent::Temporary),
            vector: Accounted::unaccounted_empty(AllocationComponent::Temporary),
            lexical: Accounted::unaccounted_empty(AllocationComponent::Temporary),
            missing: Accounted::unaccounted_empty(AllocationComponent::Temporary),
            newly_missing: Accounted::unaccounted_empty(AllocationComponent::Temporary),
            resident_bytes: 0,
            peak_bytes: 0,
        }
    }

    /// What a preparation comes to behind its first `n` buffers, in their order: the
    /// totals once these have grown, or the first growth that was refused.
    #[verifier::opaque]
    pub open spec fn stage(
        self,
        accounting: Accounting,
        vector: usize,
        lexical: usize,
        n: nat,
    ) -> Result<GrowthTotals, StoreError> {
        let union = (vector + lexical) as usize;
        let r0 = Ok(
            GrowthTotals { accounting, resident: self.resident_bytes, peak: self.peak_bytes },
        );
        let r1 = grown(r0, self.vector_keys, vector);
        let r2 = grown(r1, self.lexical_keys, lexical);
        let r3 = grown(r2, self.vector, union);
        let r4 = grown(r3, self.lexical, union);
        let r5 = grown(r4, self.missing, vector);
        if n == 0 {
            r0
        } else if n == 1 {
            r1
        } else if n == 2 {
            r2
        } else if n == 3 {
            r3
        } else if n == 4 {
            r4
        } else if n == 5 {
            r5
        } else {
            grown(r5, self.newly_missing, vector)
        }
    }

    /// What a preparation comes to: the totals once every buffer has grown, or the
    /// first growth that was refused.
    pub open spec fn prepared(self, accounting: Accounting, vector: usize, lexical: usize) -> Result<
        GrowthTotals,
        StoreError,
    > {
        self.stage(accounting, vector, lexical, 6)
    }

    /// The totals behind the last of the first `n` buffers that was not refused.
    pub open spec fn totals_left(
        self,
        accounting: Accounting,
        vector: usize,
        lexical: usize,
        n: nat,
    ) -> GrowthTotals
        decreases n,
    {
        if n == 0 {
            GrowthTotals { accounting, resident: self.resident_bytes, peak: self.peak_bytes }
        } else {
            match self.stage(accounting, vector, lexical, n) {
                Ok(totals) => totals,
                Err(_) => self.totals_left(accounting, vector, lexical, (n - 1) as nat),
            }
        }
    }

    /// What a preparation leaves of the buffers: those before the first refusal are
    /// empty and have grown, the refused one is empty and has its old allocation,
    /// and those behind it are as they were.
    pub open spec fn leaves(
        self,
        after: HybridRoundBuffers,
        accounting: Accounting,
        vector: usize,
        lexical: usize,
    ) -> bool {
        let union = (vector + lexical) as usize;
        let done = |n: nat| self.stage(accounting, vector, lexical, n) is Ok;
        &&& buffer_left(self.vector_keys, after.vector_keys, vector, true, done(1))
        &&& buffer_left(self.lexical_keys, after.lexical_keys, lexical, done(1), done(2))
        &&& buffer_left(self.vector, after.vector, union, done(2), done(3))
        &&& buffer_left(self.lexical, after.lexical, union, done(3), done(4))
        &&& buffer_left(self.missing, after.missing, vector, done(4), done(5))
        &&& buffer_left(self.newly_missing, after.newly_missing, vector, done(5), done(6))
    }

    /// What an observer sees of a preparation that starts with these buffers and
    /// leaves `peak` bytes at most, where it succeeds.
    pub open spec fn saw_preparation(self, seen: Option<ObservedScoring>, peak: Option<u64>) -> Option<
        ObservedScoring,
    > {
        let started = saw_round_start(seen, self.vector.capacity, self.lexical.capacity);
        match peak {
            Some(bytes) => saw_candidate_bytes(started, bytes),
            None => started,
        }
    }

    /// Empties the buffers and makes room for windows of the given sizes. A
    /// buffer that is large enough keeps its allocation. On a refusal the
    /// buffer that could not grow keeps its old allocation and its charge. The
    /// observer sees the capacities that the round starts with and, behind a
    /// preparation, the most bytes that the buffers held.
    #[verifier::rlimit(60)]
    pub fn prepare(
        &mut self,
        vector: usize,
        lexical: usize,
        accounting: &mut Accounting,
        observer: &mut HybridScoreObserver,
    ) -> (result: Result<(), FusionError>)
        requires
            old(self).well_formed(),
            old(self).covered_by(*old(accounting)),
        ensures
            final(self).well_formed(),
            final(self).covered_by(*final(accounting)),
            Self::moves_with(*old(self), *final(self), *old(accounting), *final(accounting)),
            final(self).peak_bytes >= old(self).peak_bytes,
            final(observer).fresh_rounds == old(observer).fresh_rounds,
            final(observer)@ == old(self).saw_preparation(
                old(observer)@,
                if result is Ok {
                    Some(final(self).peak_bytes)
                } else {
                    None
                },
            ),
            vector + lexical <= usize::MAX ==> {
                &&& old(self).leaves(*final(self), *old(accounting), vector, lexical)
                &&& old(self).totals_left(*old(accounting), vector, lexical, 6) == (GrowthTotals {
                    accounting: *final(accounting),
                    resident: final(self).resident_bytes,
                    peak: final(self).peak_bytes,
                })
            },
            match result {
                Ok(_) => vector + lexical <= usize::MAX && old(self).prepared(
                    *old(accounting),
                    vector,
                    lexical,
                ) == Ok::<GrowthTotals, StoreError>(
                    GrowthTotals {
                        accounting: *final(accounting),
                        resident: final(self).resident_bytes,
                        peak: final(self).peak_bytes,
                    },
                ),
                Err(error) => if vector + lexical > usize::MAX {
                    is_overflow(error) && *final(self) == *old(self) && *final(accounting) == *old(
                        accounting,
                    )
                } else {
                    old(self).prepared(*old(accounting), vector, lexical) matches Err(refused)
                        && is_refusal(error, refused)
                },
            },
            result is Ok ==> {
                &&& final(self).all_empty()
                &&& final(self).has_room(vector as int, lexical as int)
                &&& final(self).vector_keys.capacity == grown_capacity(
                    old(self).vector_keys,
                    vector,
                )
                &&& final(self).lexical_keys.capacity == grown_capacity(
                    old(self).lexical_keys,
                    lexical,
                )
                &&& final(self).vector.capacity == grown_capacity(
                    old(self).vector,
                    (vector + lexical) as usize,
                )
                &&& final(self).lexical.capacity == grown_capacity(
                    old(self).lexical,
                    (vector + lexical) as usize,
                )
                &&& final(self).missing.capacity == grown_capacity(old(self).missing, vector)
                &&& final(self).newly_missing.capacity == grown_capacity(
                    old(self).newly_missing,
                    vector,
                )
            },
    {
        reveal(HybridRoundBuffers::stage);
        reveal_with_fuel(HybridRoundBuffers::totals_left, 7);
        observer.round_start(self.vector.capacity(), self.lexical.capacity());
        let union: usize = match vector.checked_add(lexical) {
            Some(sum) => sum,
            None => {
                return Err(overflow());
            },
        };
        reserve_candidate_buffer(
            &mut self.vector_keys,
            vector,
            accounting,
            &mut self.resident_bytes,
            &mut self.peak_bytes,
        )?;
        reserve_candidate_buffer(
            &mut self.lexical_keys,
            lexical,
            accounting,
            &mut self.resident_bytes,
            &mut self.peak_bytes,
        )?;
        reserve_candidate_buffer(
            &mut self.vector,
            union,
            accounting,
            &mut self.resident_bytes,
            &mut self.peak_bytes,
        )?;
        reserve_candidate_buffer(
            &mut self.lexical,
            union,
            accounting,
            &mut self.resident_bytes,
            &mut self.peak_bytes,
        )?;
        reserve_candidate_buffer(
            &mut self.missing,
            vector,
            accounting,
            &mut self.resident_bytes,
            &mut self.peak_bytes,
        )?;
        reserve_candidate_buffer(
            &mut self.newly_missing,
            vector,
            accounting,
            &mut self.resident_bytes,
            &mut self.peak_bytes,
        )?;
        observer.candidate_bytes(self.peak_bytes);
        Ok(())
    }

    /// Drops the buffers and gives their charge back.
    pub fn release(self, accounting: &mut Accounting)
        requires
            self.well_formed(),
            self.covered_by(*old(accounting)),
        ensures
            final(accounting).budgets == old(accounting).budgets,
            final(accounting).resident == old(accounting).resident - self.resident_bytes,
            final(accounting).temporary == old(accounting).temporary - self.resident_bytes,
    {
        self.vector_keys.release(accounting);
        self.lexical_keys.release(accounting);
        self.vector.release(accounting);
        self.lexical.release(accounting);
        self.missing.release(accounting);
        self.newly_missing.release(accounting);
    }
}

/// What a preparation leaves of one buffer: nothing changes where it was not
/// `reached`; otherwise it is empty, and it has grown unless it was refused.
pub open spec fn buffer_left<T>(
    before: Accounted<T>,
    after: Accounted<T>,
    capacity: usize,
    reached: bool,
    granted: bool,
) -> bool {
    if !reached {
        after == before
    } else {
        &&& after.items@.len() == 0
        &&& after.component == before.component
        &&& after.capacity == if granted {
            grown_capacity(before, capacity)
        } else {
            before.capacity
        }
    }
}

/// Capacity after a request for `capacity`.
pub open spec fn grown_capacity<T>(buffer: Accounted<T>, capacity: usize) -> usize {
    if capacity <= buffer.capacity {
        buffer.capacity
    } else {
        capacity
    }
}

/// The store's totals, and the recorded total of the round buffers with its
/// high-water mark.
pub struct GrowthTotals {
    pub accounting: Accounting,
    pub resident: u64,
    pub peak: u64,
}

/// The totals once one more buffer has grown: the replacement has to fit the
/// ceilings while the old allocation is held, and the high-water mark counts
/// both. A growth that was refused stays so.
pub open spec fn grown<T>(
    totals: Result<GrowthTotals, StoreError>,
    buffer: Accounted<T>,
    capacity: usize,
) -> Result<GrowthTotals, StoreError> {
    match totals {
        Err(refused) => Err(refused),
        Ok(now) => match buffer.growth(now.accounting, capacity) {
            Err(refused) => Err(refused),
            Ok(_) => if capacity <= buffer.capacity {
                Ok(now)
            } else {
                let bytes = Accounted::<T>::bytes_for(capacity as int);
                let more = bytes - buffer.bytes;
                Ok(
                    GrowthTotals {
                        accounting: Accounting {
                            resident: (now.accounting.resident + more) as u64,
                            temporary: (now.accounting.temporary + more) as u64,
                            ..now.accounting
                        },
                        resident: (now.resident + more) as u64,
                        peak: if bytes != buffer.bytes && now.resident + bytes > now.peak {
                            (now.resident + bytes) as u64
                        } else {
                            now.peak
                        },
                    },
                )
            },
        },
    }
}

/// Empties a buffer and makes room for `capacity` items, keeping the recorded
/// total and its high-water mark, which counts both allocations of a growth.
pub fn reserve_candidate_buffer<T>(
    buffer: &mut Accounted<T>,
    capacity: usize,
    accounting: &mut Accounting,
    resident: &mut u64,
    peak: &mut u64,
) -> (result: Result<(), FusionError>)
    requires
        is_scratch(*old(buffer)),
        old(buffer).bytes <= *old(resident),
        *old(resident) <= old(accounting).resident,
        *old(resident) <= old(accounting).temporary,
    ensures
        is_scratch(*final(buffer)),
        final(buffer).items@.len() == 0,
        final(accounting).budgets == old(accounting).budgets,
        final(buffer).bytes - old(buffer).bytes == *final(resident) - *old(resident),
        final(accounting).temporary - old(accounting).temporary == *final(resident) - *old(
            resident,
        ),
        final(accounting).resident - old(accounting).resident == *final(resident) - *old(resident),
        *final(peak) >= *old(peak),
        ({
            let totals = grown(
                Ok(
                    GrowthTotals {
                        accounting: *old(accounting),
                        resident: *old(resident),
                        peak: *old(peak),
                    },
                ),
                *old(buffer),
                capacity,
            );
            match result {
                Ok(_) => {
                    &&& totals == Ok::<GrowthTotals, StoreError>(
                        GrowthTotals {
                            accounting: *final(accounting),
                            resident: *final(resident),
                            peak: *final(peak),
                        },
                    )
                    &&& final(buffer).capacity == grown_capacity(*old(buffer), capacity)
                },
                Err(error) => {
                    &&& totals matches Err(refused) && is_refusal(error, refused)
                    &&& final(buffer).capacity == old(buffer).capacity
                    &&& final(buffer).bytes == old(buffer).bytes
                    &&& *final(accounting) == *old(accounting)
                    &&& *final(resident) == *old(resident)
                    &&& *final(peak) == *old(peak)
                },
            }
        }),
{
    buffer.clear();
    let old_bytes: u64 = buffer.resident_bytes();
    match buffer.try_reserve_total(accounting, capacity) {
        Ok(_) => {},
        Err(error) => {
            return Err(refusal(error));
        },
    }
    let new_bytes: u64 = buffer.resident_bytes();
    if new_bytes != old_bytes {
        let both: u64 = *resident + new_bytes;
        if both > *peak {
            *peak = both;
        }
        *resident = *resident - old_bytes + new_bytes;
    }
    Ok(())
}

/// Coverage of a list of `len` items seen through a window.
pub open spec fn bounded_coverage(len: nat, width: nat) -> CandidateCoverage {
    if len <= width {
        CandidateCoverage::Exhaustive
    } else {
        CandidateCoverage::CertifiedBounded
    }
}

/// What a vector search reports about its own result.
#[derive(Clone, Copy, Debug, PartialEq, Eq, Structural)]
pub struct VectorDiagnosticsFlags {
    pub approximate: bool,
    pub exact_rescore: bool,
}

/// Where the candidates of a round come from. A round that was built holds a
/// score for every candidate of its union.
pub fn round_provenance(
    flags: VectorDiagnosticsFlags,
    vector_len: usize,
    lexical_len: usize,
    width: usize,
) -> (provenance: HybridProvenance)
    ensures
        provenance.vector_precision == if flags.exact_rescore {
            ScorePrecision::Exact
        } else {
            ScorePrecision::Estimated
        },
        provenance.vector_coverage == if flags.approximate || !flags.exact_rescore {
            CandidateCoverage::Approximate
        } else {
            bounded_coverage(vector_len as nat, width as nat)
        },
        provenance.lexical_coverage == bounded_coverage(lexical_len as nat, width as nat),
        provenance.cross_scores_complete,
{
    HybridProvenance {
        vector_precision: if flags.exact_rescore {
            ScorePrecision::Exact
        } else {
            ScorePrecision::Estimated
        },
        vector_coverage: if flags.approximate || !flags.exact_rescore {
            CandidateCoverage::Approximate
        } else if vector_len <= width {
            CandidateCoverage::Exhaustive
        } else {
            CandidateCoverage::CertifiedBounded
        },
        lexical_coverage: if lexical_len <= width {
            CandidateCoverage::Exhaustive
        } else {
            CandidateCoverage::CertifiedBounded
        },
        cross_scores_complete: true,
    }
}

/// Both producers bound what they did not return.
pub open spec fn bounded_producers(provenance: HybridProvenance) -> bool {
    provenance.vector_coverage != CandidateCoverage::Approximate && provenance.lexical_coverage
        != CandidateCoverage::Approximate
}

/// A stop of this round is a certificate.
pub open spec fn can_certify(provenance: HybridProvenance) -> bool {
    bounded_producers(provenance) && provenance.vector_precision == ScorePrecision::Exact
        && provenance.cross_scores_complete
}

/// The termination that a round reports.
pub open spec fn round_termination(
    fused: FusionTermination,
    provenance: HybridProvenance,
    require_exact: bool,
) -> FusionTermination {
    if can_certify(provenance) {
        fused
    } else if require_exact && bounded_producers(provenance) {
        FusionTermination::WindowUnproven
    } else {
        FusionTermination::ApproximateCandidates
    }
}

/// What the fusion engine made of one round: its outcome, the capacity for the
/// union that it started with, and the most bytes that the union has held.
#[derive(Debug)]
pub struct UnionFusion {
    pub outcome: Result<FusionOutcome, FusionError>,
    pub start_capacity: usize,
    pub peak_bytes: u64,
}

/// Settles what the fusion of one round may claim: its own termination where
/// the round can certify it, else that the window is unproven or approximate.
/// The observer sees the capacity that the fusion started with and, where it did
/// not fail, the most bytes that the union held.
pub fn fuse_round(
    fusion: UnionFusion,
    provenance: HybridProvenance,
    require_exact: bool,
    observer: &mut HybridScoreObserver,
) -> (result: Result<FusionOutcome, FusionError>)
    ensures
        final(observer).fresh_rounds == old(observer).fresh_rounds,
        match fusion.outcome {
            Err(error) => {
                &&& result == Err::<FusionOutcome, FusionError>(error)
                &&& final(observer)@ == saw_union_start(old(observer)@, fusion.start_capacity)
            },
            Ok(fused) => {
                &&& result matches Ok(outcome) && {
                    &&& outcome.hits == fused.hits
                    &&& outcome.report.rounds == fused.report.rounds
                    &&& outcome.report.budget_exhausted == fused.report.budget_exhausted
                    &&& outcome.report.termination == round_termination(
                        fused.report.termination,
                        provenance,
                        require_exact,
                    )
                }
                &&& final(observer)@ == saw_union_bytes(
                    saw_union_start(old(observer)@, fusion.start_capacity),
                    fusion.peak_bytes,
                )
            },
        },
{
    observer.union_start(fusion.start_capacity);
    let mut outcome = fusion.outcome?;
    observer.union_bytes(fusion.peak_bytes);
    let bounded = provenance.vector_coverage != CandidateCoverage::Approximate
        && provenance.lexical_coverage != CandidateCoverage::Approximate;
    let certified = bounded && provenance.vector_precision == ScorePrecision::Exact
        && provenance.cross_scores_complete;
    if !certified {
        outcome.report.termination = if require_exact && bounded {
            FusionTermination::WindowUnproven
        } else {
            FusionTermination::ApproximateCandidates
        };
    }
    Ok(outcome)
}

/// An approximate producer never certifies a stop, whatever fusion reported and
/// however exact its scores are.
pub proof fn lemma_approximate_lists_certify_nothing(
    fused: FusionTermination,
    provenance: HybridProvenance,
    require_exact: bool,
)
    requires
        provenance.vector_coverage == CandidateCoverage::Approximate
            || provenance.lexical_coverage == CandidateCoverage::Approximate,
    ensures
        round_termination(fused, provenance, require_exact)
            == FusionTermination::ApproximateCandidates,
{
}

} // verus!
