//! Pieces of the vector search: query validation, error mapping, merging of
//! producer outcomes and the ceiling of the vector distances.

use crate::candidates::add_traversal_stats;
use crate::candidates::add_workers;
use crate::candidates::distinct_union;
use crate::candidates::GraphSearchStats;
use crate::candidates::ScanCandidate;
use crate::candidates::ScanOutcome;
use crate::candidates::SearchCandidate;
use crate::corpus::alive_at;
use crate::corpus::document_at;
use crate::corpus::is_alive;
use crate::corpus::read_document;
use crate::corpus::UnreadDocument;
use crate::error::overflow_error;
use crate::error::Geometry;
use crate::error::GraphSearchError;
use crate::error::QuantError;
use crate::error::QueryError;
use crate::error::RescoreError;
use crate::error::ScanError;
use crate::error::SegmentError;
use crate::error::StoreError;
use crate::graph_cache::NormRange;
use crate::ids::DocumentVersion;
use crate::ids::GlobalRowId;
use crate::ids::RowSource;
use crate::ids::SegmentId;
use crate::options::SearchTier;
use crate::plan::SegmentPlan;
use crate::rank::best;
use crate::rank::rank_items;
use crate::rank::ranked;
use crate::score::Double;
use crate::score::Score;
use crate::structured::numeric;
use crate::structured::numeric_below;
use vstd::prelude::*;

verus! {

/// The first value that is not finite is at `index`.
pub open spec fn first_not_finite(query: Seq<Score>, index: int) -> bool {
    &&& 0 <= index < query.len()
    &&& !query[index].spec_is_finite()
    &&& forall|i: int| 0 <= i < index ==> (#[trigger] query[i]).spec_is_finite()
}

/// What is wrong with a query vector.
pub open spec fn is_query_fault(query: Seq<Score>, maximum: nat, error: QuantError) -> bool {
    if query.len() == 0 {
        error == QuantError::EmptyVector
    } else if query.len() > maximum {
        error == (QuantError::DimensionTooLarge {
            actual: query.len() as usize,
            maximum: maximum as usize,
        })
    } else {
        error matches QuantError::NonFinite { index } && first_not_finite(query, index as int)
    }
}

/// A query vector that every tier accepts.
pub open spec fn query_is_valid(query: Seq<Score>, maximum: nat) -> bool {
    &&& 0 < query.len() <= maximum
    &&& forall|i: int| 0 <= i < query.len() ==> (#[trigger] query[i]).spec_is_finite()
}

/// Validates a query vector: it has at least one and at most `maximum` values,
/// all of them finite.
pub fn validate_query(query: &Vec<Score>, maximum: usize) -> (result: Result<(), QueryError>)
    ensures
        match result {
            Ok(_) => query_is_valid(query@, maximum as nat),
            Err(error) => error matches QueryError::Scan(ScanError::Quant(fault)) && is_query_fault(
                query@,
                maximum as nat,
                fault,
            ) && !query_is_valid(query@, maximum as nat),
        },
{
    if query.len() == 0 {
        return Err(QueryError::Scan(ScanError::Quant(QuantError::EmptyVector)));
    }
    if query.len() > maximum {
        return Err(
            QueryError::Scan(
                ScanError::Quant(QuantError::DimensionTooLarge { actual: query.len(), maximum }),
            ),
        );
    }
    let mut at: usize = 0;
    while at < query.len()
        invariant
            at <= query@.len(),
            0 < query@.len() <= maximum,
            forall|i: int| 0 <= i < at ==> (#[trigger] query@[i]).spec_is_finite(),
        decreases query.len() - at,
    {
        if !query[at].is_finite() {
            assert(first_not_finite(query@, at as int));
            assert(!query@[at as int].spec_is_finite());
            return Err(QueryError::Scan(ScanError::Quant(QuantError::NonFinite { index: at })));
        }
        at = at + 1;
    }
    Ok(())
}

/// What a scan failure is reported as.
pub open spec fn scan_failure(error: ScanError) -> QueryError {
    match error {
        ScanError::Cancelled { partial } => QueryError::Cancelled { partial },
        ScanError::Timeout { partial } => QueryError::Timeout { partial },
        ScanError::ReadCancelled { partial } => QueryError::ReadCancelled { partial },
        other => QueryError::Scan(other),
    }
}

/// A query's own stop is reported as such, everything else as a scan failure.
pub fn map_scan_error(error: ScanError) -> (result: QueryError)
    ensures
        result == scan_failure(error),
{
    match error {
        ScanError::Cancelled { partial } => QueryError::Cancelled { partial },
        ScanError::Timeout { partial } => QueryError::Timeout { partial },
        ScanError::ReadCancelled { partial } => QueryError::ReadCancelled { partial },
        other => QueryError::Scan(other),
    }
}

/// What a traversal failure is reported as.
pub open spec fn graph_error(error: GraphSearchError) -> QueryError {
    match error {
        GraphSearchError::ExactRescoreUnavailable(detail) => QueryError::Store(
            StoreError::Segment(SegmentError::Geometry(detail)),
        ),
        GraphSearchError::Cancelled { partial } => QueryError::Cancelled { partial },
        GraphSearchError::Timeout { partial } => QueryError::Timeout { partial },
        GraphSearchError::ReadCancelled { partial } => QueryError::ReadCancelled { partial },
        GraphSearchError::Scan(inner) => QueryError::Scan(inner),
        other => QueryError::Graph(other),
    }
}

/// What a traversal failure is reported as.
pub fn map_graph_error(error: GraphSearchError) -> (result: QueryError)
    ensures
        result == graph_error(error),
{
    match error {
        GraphSearchError::ExactRescoreUnavailable(detail) => QueryError::Store(
            StoreError::Segment(SegmentError::Geometry(detail)),
        ),
        GraphSearchError::Cancelled { partial } => QueryError::Cancelled { partial },
        GraphSearchError::Timeout { partial } => QueryError::Timeout { partial },
        GraphSearchError::ReadCancelled { partial } => QueryError::ReadCancelled { partial },
        GraphSearchError::Scan(inner) => QueryError::Scan(inner),
        other => QueryError::Graph(other),
    }
}

/// Failure of the cache that lends traversal scratch.
#[derive(Clone, Debug, PartialEq, Eq)]
pub enum GraphCacheError {
    Store(StoreError),
    Search(GraphSearchError),
}

/// What a scratch cache failure is reported as.
pub fn map_graph_cache_error(error: GraphCacheError) -> (result: QueryError)
    ensures
        result == match error {
            GraphCacheError::Store(inner) => QueryError::Store(inner),
            GraphCacheError::Search(inner) => graph_error(inner),
        },
{
    match error {
        GraphCacheError::Store(inner) => QueryError::Store(inner),
        GraphCacheError::Search(inner) => map_graph_error(inner),
    }
}

/// What a rescoring failure of an exhaustive scan is reported as.
pub open spec fn rescore_scan_error(error: RescoreError) -> ScanError {
    match error {
        RescoreError::ZeroDimension => ScanError::ZeroDimension,
        RescoreError::QueryDimension { expected, actual } => ScanError::RowDataLength {
            dimension: expected,
            actual,
        },
        RescoreError::CoarseScoreCount { expected, actual } => ScanError::RowDataLength {
            dimension: expected,
            actual,
        },
        RescoreError::CandidateRowCount { expected, actual } => ScanError::RowDataLength {
            dimension: expected,
            actual,
        },
        RescoreError::RowDataLength { dimension, actual } => ScanError::RowDataLength {
            dimension,
            actual,
        },
        RescoreError::CandidateRowOutOfRange { position: _, row_index, row_count } =>
        ScanError::RowDataLength { dimension: row_count, actual: row_index },
        RescoreError::NonFiniteCoarseScore { index } => ScanError::NonFiniteScore { row_id: index },
        RescoreError::NonFiniteExactScore { row_index } => ScanError::NonFiniteScore {
            row_id: row_index,
        },
        _ => ScanError::ArithmeticOverflow,
    }
}

/// What a rescoring failure of an exhaustive scan is reported as.
pub fn map_l2_rescore_error(error: RescoreError) -> (result: QueryError)
    ensures
        result == QueryError::Scan(rescore_scan_error(error)),
{
    let mapped = match error {
        RescoreError::ZeroDimension => ScanError::ZeroDimension,
        RescoreError::QueryDimension { expected, actual } => ScanError::RowDataLength {
            dimension: expected,
            actual,
        },
        RescoreError::CoarseScoreCount { expected, actual } => ScanError::RowDataLength {
            dimension: expected,
            actual,
        },
        RescoreError::CandidateRowCount { expected, actual } => ScanError::RowDataLength {
            dimension: expected,
            actual,
        },
        RescoreError::RowDataLength { dimension, actual } => ScanError::RowDataLength {
            dimension,
            actual,
        },
        RescoreError::CandidateRowOutOfRange { position: _, row_index, row_count } =>
        ScanError::RowDataLength { dimension: row_count, actual: row_index },
        RescoreError::NonFiniteCoarseScore { index } => ScanError::NonFiniteScore { row_id: index },
        RescoreError::NonFiniteExactScore { row_index } => ScanError::NonFiniteScore {
            row_id: row_index,
        },
        _ => ScanError::ArithmeticOverflow,
    };
    QueryError::Scan(mapped)
}

/// The failure of a segment whose exact scores are missing for some rows.
pub open spec fn missing_rows(segment: SegmentId, expected: u32, available: u32) -> QueryError {
    QueryError::Store(
        StoreError::Segment(
            SegmentError::Geometry(
                Geometry::ExactScoresUnavailable { segment, expected, available },
            ),
        ),
    )
}

/// The failure of a segment whose exact scores are missing for some rows.
pub fn missing_rescore_rows_error(segment: SegmentId, expected: u32, available: u32) -> (error:
    QueryError)
    ensures
        error == missing_rows(segment, expected, available),
{
    QueryError::Store(
        StoreError::Segment(
            SegmentError::Geometry(
                Geometry::ExactScoresUnavailable { segment, expected, available },
            ),
        ),
    )
}

/// A segment's exact rows as far as they could be read.
pub open spec fn rescore_rows<R>(rows: Result<R, SegmentError>) -> Result<R, QueryError> {
    match rows {
        Ok(read) => Ok(read),
        Err(error) => Err(QueryError::Store(StoreError::Segment(error))),
    }
}

/// The rows that an exact scan of a segment scores.
pub fn exact_rescore_rows<R>(rows: Result<R, SegmentError>) -> (result: Result<R, QueryError>)
    ensures
        result == rescore_rows(rows),
{
    match rows {
        Ok(read) => Ok(read),
        Err(error) => Err(QueryError::Store(StoreError::Segment(error))),
    }
}

/// The rows that an exact scan of a segment scores; `missing` is how many a
/// fault leaves of them, where one is armed.
pub fn exact_rescore_rows_for_search<R>(
    segment: SegmentId,
    row_count: u32,
    missing: Option<u32>,
    rows: Result<R, SegmentError>,
) -> (result: Result<R, QueryError>)
    ensures
        result == match missing {
            Some(available) => Err(missing_rows(segment, row_count, available)),
            None => rescore_rows(rows),
        },
{
    match missing {
        Some(available) => Err(missing_rescore_rows_error(segment, row_count, available)),
        None => exact_rescore_rows(rows),
    }
}

/// The rows that the hits of a segment are rescored with.
pub fn query_rescore_rows<R>(rows: Result<R, SegmentError>) -> (result: Result<R, QueryError>)
    ensures
        result == rescore_rows(rows),
{
    match rows {
        Ok(read) => Ok(read),
        Err(error) => Err(QueryError::Store(StoreError::Segment(error))),
    }
}

/// The rows that the hits of a segment are rescored with; `missing` is how many
/// a fault leaves of them, where one is armed.
pub fn query_rescore_rows_for_search<R>(
    segment: SegmentId,
    row_count: u32,
    missing: Option<u32>,
    rows: Result<R, SegmentError>,
) -> (result: Result<R, QueryError>)
    ensures
        result == match missing {
            Some(available) => Err(missing_rows(segment, row_count, available)),
            None => rescore_rows(rows),
        },
{
    match missing {
        Some(available) => Err(missing_rescore_rows_error(segment, row_count, available)),
        None => query_rescore_rows(rows),
    }
}

/// Rows that a vector fault is bound to.
#[derive(Clone, Copy, Debug, PartialEq, Eq, Structural)]
pub enum VectorRowSource {
    Active,
    Sealed(SegmentId),
}

/// The fault source of a row source.
pub fn vector_fault_source(source: RowSource) -> (result: VectorRowSource)
    ensures
        result == match source {
            RowSource::Active => VectorRowSource::Active,
            RowSource::Sealed(segment) => VectorRowSource::Sealed(segment),
        },
{
    match source {
        RowSource::Active => VectorRowSource::Active,
        RowSource::Sealed(segment) => VectorRowSource::Sealed(segment),
    }
}

/// Tier that a vector fault is bound to.
#[derive(Clone, Copy, Debug, PartialEq, Eq, Structural)]
pub enum VectorSearchTier {
    Exact,
    Scan,
    Graph,
    Auto,
}

/// The fault tier of a search tier.
pub fn vector_fault_tier(tier: SearchTier) -> (result: VectorSearchTier)
    ensures
        result == match tier {
            SearchTier::Exact => VectorSearchTier::Exact,
            SearchTier::Scan => VectorSearchTier::Scan,
            SearchTier::Graph(_) => VectorSearchTier::Graph,
            SearchTier::Auto => VectorSearchTier::Auto,
        },
{
    match tier {
        SearchTier::Exact => VectorSearchTier::Exact,
        SearchTier::Scan => VectorSearchTier::Scan,
        SearchTier::Graph(_) => VectorSearchTier::Graph,
        SearchTier::Auto => VectorSearchTier::Auto,
    }
}

/// Ranks the candidates and keeps the best `k`.
pub fn retain_global_top_k(candidates: &mut Vec<SearchCandidate>, k: usize)
    ensures
        final(candidates)@ == best(ranked(old(candidates)@), k as nat),
{
    rank_items(candidates);
    let ghost all = candidates@;
    candidates.truncate(k);
    assert(candidates@ == best(all, k as nat));
}

/// The distance that a further row has to beat: that of the `k`-th candidate,
/// where there are `k` and it is a finite distance.
pub open spec fn competitive_distance(candidates: Seq<SearchCandidate>, k: nat) -> Option<Score> {
    if k == 0 || candidates.len() < k {
        None
    } else {
        let distance = candidates[k - 1].score.spec_negated();
        if distance.spec_is_finite() && distance.spec_is_nonnegative() {
            Some(distance)
        } else {
            None
        }
    }
}

/// The distance that a further row has to beat.
pub fn global_competitive_distance(candidates: &Vec<SearchCandidate>, k: usize) -> (distance: Option<
    Score,
>)
    ensures
        distance == competitive_distance(candidates@, k as nat),
{
    if k == 0 || candidates.len() < k {
        return None;
    }
    let distance = candidates[k - 1].score.negated();
    if distance.is_finite() && distance.is_nonnegative() {
        Some(distance)
    } else {
        None
    }
}

/// Bytes of one candidate.
pub open spec fn candidate_bytes() -> nat {
    vstd::layout::size_of::<SearchCandidate>()
}

/// The failure to make room for `additional` candidates, if there is one:
/// `denied` says that memory was refused.
pub open spec fn room_failure(additional: nat, denied: bool) -> Option<QueryError> {
    if additional == 0 {
        None
    } else if additional * candidate_bytes() > u64::MAX {
        Some(overflow_error())
    } else if denied {
        Some(
            QueryError::Store(
                StoreError::AllocationFailed {
                    needed: (additional * candidate_bytes()) as u64,
                    component: "vector search global candidates",
                },
            ),
        )
    } else {
        None
    }
}

/// Makes room for `additional` candidates; `denied` says that memory was
/// refused.
pub fn reserve_global_candidates(additional: usize, denied: bool) -> (result: Result<
    (),
    QueryError,
>)
    ensures
        result == match room_failure(additional as nat, denied) {
            Some(error) => Err(error),
            None => Ok(()),
        },
{
    if additional == 0 {
        return Ok(());
    }
    let size: usize = std::mem::size_of::<SearchCandidate>();
    match (additional as u64).checked_mul(size as u64) {
        None => Err(QueryError::Scan(ScanError::ArithmeticOverflow)),
        Some(needed) => {
            if denied {
                Err(
                    QueryError::Store(
                        StoreError::AllocationFailed {
                            needed,
                            component: "vector search global candidates",
                        },
                    ),
                )
            } else {
                Ok(())
            }
        },
    }
}

/// What one vector search has gathered so far.
#[derive(Debug)]
pub struct SearchTotals {
    pub candidates: Vec<SearchCandidate>,
    pub dims_touched: u64,
    pub bytes_read: u64,
    pub worker_thread_ids: Vec<u64>,
    pub graph_stats: GraphSearchStats,
}

impl SearchTotals {
    /// Nothing gathered.
    pub fn new() -> (totals: SearchTotals)
        ensures
            totals.candidates@ == Seq::<SearchCandidate>::empty(),
            totals.dims_touched == 0,
            totals.bytes_read == 0,
            totals.worker_thread_ids@ == Seq::<u64>::empty(),
            totals.graph_stats == GraphSearchStats::spec_zero(),
    {
        SearchTotals {
            candidates: Vec::new(),
            dims_touched: 0,
            bytes_read: 0,
            worker_thread_ids: Vec::new(),
            graph_stats: GraphSearchStats::zero(),
        }
    }

    /// Whether two totals hold the same.
    pub open spec fn same(self, other: SearchTotals) -> bool {
        &&& self.candidates@ == other.candidates@
        &&& self.dims_touched == other.dims_touched
        &&& self.bytes_read == other.bytes_read
        &&& self.worker_thread_ids@ == other.worker_thread_ids@
        &&& self.graph_stats == other.graph_stats
    }
}

/// The candidates of a scan as candidates of the search.
pub open spec fn scan_candidates(
    hits: Seq<ScanCandidate>,
    source: RowSource,
    documents: Seq<Option<DocumentVersion>>,
    exact_score: bool,
) -> Seq<SearchCandidate> {
    hits.map_values(
        |hit: ScanCandidate| SearchCandidate {
            row_id: GlobalRowId { source, local_row: hit.row_id as u32 },
            document: document_at(documents, hit.row_id as nat),
            score: hit.score,
            exact_score,
        },
    )
}

/// Whether every row of a scan can be addressed.
pub open spec fn rows_fit(hits: Seq<ScanCandidate>) -> bool {
    forall|i: int| 0 <= i < hits.len() ==> (#[trigger] hits[i]).row_id <= u32::MAX
}

/// The failure to address a scan's rows and read their documents, if there is
/// one: the first hit that fails decides, and its row comes before its document.
pub open spec fn reading_failure(
    hits: Seq<ScanCandidate>,
    unread: Option<UnreadDocument>,
) -> Option<QueryError> {
    match unread {
        Some(fault) if fault.hit < hits.len() && rows_fit(hits.take(fault.hit + 1)) => Some(
            QueryError::Store(StoreError::Segment(fault.error)),
        ),
        _ => if rows_fit(hits) {
            None
        } else {
            Some(overflow_error())
        },
    }
}

/// The failure to take in a scan outcome, if there is one.
pub open spec fn merge_failure(
    totals: SearchTotals,
    outcome: ScanOutcome,
    unread: Option<UnreadDocument>,
    denied: bool,
) -> Option<QueryError> {
    if totals.dims_touched + outcome.stats.dims_touched > u64::MAX {
        Some(overflow_error())
    } else if totals.bytes_read + outcome.stats.bytes_read > u64::MAX {
        Some(overflow_error())
    } else if room_failure(outcome.candidates@.len(), denied) is Some {
        room_failure(outcome.candidates@.len(), denied)
    } else {
        reading_failure(outcome.candidates@, unread)
    }
}

fn check_rows(hits: &Vec<ScanCandidate>, unread: Option<UnreadDocument>) -> (result: Result<
    (),
    QueryError,
>)
    ensures
        match reading_failure(hits@, unread) {
            Some(error) => result == Err::<(), QueryError>(error),
            None => result is Ok && rows_fit(hits@),
        },
{
    let mut at: usize = 0;
    while at < hits.len()
        invariant
            at <= hits@.len(),
            forall|i: int| 0 <= i < at ==> (#[trigger] hits@[i]).row_id <= u32::MAX,
            unread matches Some(fault) ==> fault.hit >= at,
        decreases hits.len() - at,
    {
        if hits[at].row_id > u32::MAX as usize {
            assert(hits@[at as int].row_id > u32::MAX);
            proof {
                if let Some(fault) = unread {
                    if fault.hit < hits@.len() {
                        assert(hits@.take(fault.hit + 1)[at as int].row_id > u32::MAX);
                    }
                }
            }
            return Err(QueryError::Scan(ScanError::ArithmeticOverflow));
        }
        let due = match &unread {
            Some(fault) => fault.hit == at,
            None => false,
        };
        if due {
            if let Some(fault) = unread {
                assert(rows_fit(hits@.take(at + 1)));
                return Err(QueryError::Store(StoreError::Segment(fault.error)));
            }
        }
        at = at + 1;
    }
    Ok(())
}

/// Takes one source's scan outcome into the search: its work is added, its
/// workers are joined without repeats and its hits become candidates with their
/// pinned documents. `unread` is the first document that could not be read,
/// where there is one. On a failure nothing is taken in.
pub fn merge_store_outcome(
    totals: &mut SearchTotals,
    outcome: &ScanOutcome,
    source: RowSource,
    documents: &Vec<Option<DocumentVersion>>,
    unread: Option<UnreadDocument>,
    exact_score: bool,
    denied: bool,
) -> (result: Result<(), QueryError>)
    ensures
        result == match merge_failure(*old(totals), *outcome, unread, denied) {
            Some(error) => Err(error),
            None => Ok(()),
        },
        result is Err ==> final(totals).same(*old(totals)),
        result is Ok ==> {
            &&& final(totals).candidates@ == old(totals).candidates@ + scan_candidates(
                outcome.candidates@,
                source,
                documents@,
                exact_score,
            )
            &&& final(totals).dims_touched == old(totals).dims_touched + outcome.stats.dims_touched
            &&& final(totals).bytes_read == old(totals).bytes_read + outcome.stats.bytes_read
            &&& final(totals).worker_thread_ids@ == distinct_union(
                old(totals).worker_thread_ids@,
                outcome.stats.worker_thread_ids@,
            )
            &&& final(totals).graph_stats == old(totals).graph_stats
        },
{
    let dims: u64 = match totals.dims_touched.checked_add(outcome.stats.dims_touched) {
        Some(sum) => sum,
        None => {
            return Err(QueryError::Scan(ScanError::ArithmeticOverflow));
        },
    };
    let bytes: u64 = match totals.bytes_read.checked_add(outcome.stats.bytes_read) {
        Some(sum) => sum,
        None => {
            return Err(QueryError::Scan(ScanError::ArithmeticOverflow));
        },
    };
    reserve_global_candidates(outcome.candidates.len(), denied)?;
    check_rows(&outcome.candidates, unread)?;
    totals.dims_touched = dims;
    totals.bytes_read = bytes;
    add_workers(&mut totals.worker_thread_ids, &outcome.stats.worker_thread_ids);
    let ghost wanted = scan_candidates(outcome.candidates@, source, documents@, exact_score);
    let mut at: usize = 0;
    while at < outcome.candidates.len()
        invariant
            at <= outcome.candidates@.len(),
            rows_fit(outcome.candidates@),
            wanted == scan_candidates(outcome.candidates@, source, documents@, exact_score),
            totals.candidates@ == old(totals).candidates@ + wanted.take(at as int),
            totals.dims_touched == dims,
            totals.bytes_read == bytes,
            totals.worker_thread_ids@ == distinct_union(
                old(totals).worker_thread_ids@,
                outcome.stats.worker_thread_ids@,
            ),
            totals.graph_stats == old(totals).graph_stats,
        decreases outcome.candidates.len() - at,
    {
        let hit = outcome.candidates[at];
        assert(outcome.candidates@[at as int].row_id <= u32::MAX);
        totals.candidates.push(
            SearchCandidate {
                row_id: GlobalRowId::new(source, hit.row_id as u32),
                document: read_document(documents, hit.row_id),
                score: hit.score,
                exact_score,
            },
        );
        assert(wanted.take(at + 1) == wanted.take(at as int).push(wanted[at as int]));
        at = at + 1;
    }
    assert(wanted.take(at as int) == wanted);
    Ok(())
}

/// One hit of a traversal: a row and its negated distance in single precision.
#[derive(Clone, Copy, Debug, PartialEq, Eq, Structural)]
pub struct GraphHit {
    pub row_id: u32,
    pub score: Score,
}

/// What a segment's graph gave.
#[derive(Debug)]
pub enum SegmentGraphResult {
    /// The segment's bound ruled it out.
    Pruned { plan: SegmentPlan, graph_stats: GraphSearchStats },
    /// The graph was traversed.
    Traversed {
        hits: Vec<GraphHit>,
        plan: SegmentPlan,
        dims_touched: u64,
        bytes_read: u64,
        caller_thread: u64,
        graph_stats: GraphSearchStats,
    },
}

/// A segment's graph result that was taken in.
#[derive(Clone, Copy, Debug, PartialEq, Eq, Structural)]
pub struct MergedSegmentGraph {
    pub plan: SegmentPlan,
    pub traversed: bool,
}

/// The hits whose rows are alive, in order.
pub open spec fn live_hits(hits: Seq<GraphHit>, alive: Seq<bool>) -> Seq<GraphHit> {
    hits.filter(|hit: GraphHit| alive_at(alive, hit.row_id as nat))
}

/// The live hits of a traversal as candidates of the search.
pub open spec fn graph_candidates(
    hits: Seq<GraphHit>,
    alive: Seq<bool>,
    source: RowSource,
    documents: Seq<Option<DocumentVersion>>,
) -> Seq<SearchCandidate> {
    live_hits(hits, alive).map_values(
        |hit: GraphHit| SearchCandidate {
            row_id: GlobalRowId { source, local_row: hit.row_id },
            document: document_at(documents, hit.row_id as nat),
            score: hit.score,
            exact_score: true,
        },
    )
}

/// The failure to narrow a traversal's live distances and read their documents,
/// from the hit at `at` on, if there is one: the first live hit that fails
/// decides, and its distance comes before its document.
pub open spec fn hit_failure(
    hits: Seq<GraphHit>,
    alive: Seq<bool>,
    unread: Option<UnreadDocument>,
    at: nat,
) -> Option<QueryError>
    decreases hits.len() - at,
{
    if at >= hits.len() {
        None
    } else if !alive_at(alive, hits[at as int].row_id as nat) {
        hit_failure(hits, alive, unread, at + 1)
    } else if !hits[at as int].score.spec_is_finite() {
        Some(
            QueryError::Graph(
                GraphSearchError::Geometry(
                    Geometry::DistanceNotRepresentable(hits[at as int].row_id),
                ),
            ),
        )
    } else {
        match unread {
            Some(fault) if fault.hit == at => Some(
                QueryError::Store(StoreError::Segment(fault.error)),
            ),
            _ => hit_failure(hits, alive, unread, at + 1),
        }
    }
}

/// The failure to take in a traversal, if there is one.
pub open spec fn traversal_failure(
    totals: SearchTotals,
    hits: Seq<GraphHit>,
    alive: Seq<bool>,
    dims_touched: u64,
    bytes_read: u64,
    delta: GraphSearchStats,
    unread: Option<UnreadDocument>,
    denied: bool,
) -> Option<QueryError> {
    if totals.dims_touched + dims_touched > u64::MAX {
        Some(overflow_error())
    } else if totals.bytes_read + bytes_read > u64::MAX {
        Some(overflow_error())
    } else if !totals.graph_stats.sum_fits(delta) {
        Some(overflow_error())
    } else if room_failure(live_hits(hits, alive).len(), denied) is Some {
        room_failure(live_hits(hits, alive).len(), denied)
    } else {
        hit_failure(hits, alive, unread, 0)
    }
}

/// Counts the hits whose rows are alive.
pub fn count_live(hits: &Vec<GraphHit>, alive: &Vec<bool>) -> (count: usize)
    ensures
        count == live_hits(hits@, alive@).len(),
{
    let ghost passes = |hit: GraphHit| alive_at(alive@, hit.row_id as nat);
    let mut count: usize = 0;
    let mut at: usize = 0;
    assert(hits@.take(0).filter(passes) == Seq::<GraphHit>::empty()) by {
        reveal(Seq::filter);
    }
    while at < hits.len()
        invariant
            at <= hits@.len(),
            count <= at,
            passes == (|hit: GraphHit| alive_at(alive@, hit.row_id as nat)),
            count == hits@.take(at as int).filter(passes).len(),
        decreases hits.len() - at,
    {
        let ghost longer = hits@.take(at + 1);
        assert(longer.drop_last() == hits@.take(at as int));
        assert(longer.last() == hits@[at as int]);
        assert(longer.filter(passes) == if passes(longer.last()) {
            longer.drop_last().filter(passes).push(longer.last())
        } else {
            longer.drop_last().filter(passes)
        }) by {
            reveal(Seq::filter);
        }
        if is_alive(alive, hits[at].row_id) {
            count = count + 1;
        }
        at = at + 1;
    }
    assert(hits@.take(at as int) == hits@);
    count
}

fn check_hits(hits: &Vec<GraphHit>, alive: &Vec<bool>, unread: Option<UnreadDocument>) -> (result:
    Result<(), QueryError>)
    ensures
        result == match hit_failure(hits@, alive@, unread, 0) {
            Some(error) => Err(error),
            None => Ok(()),
        },
{
    let mut at: usize = 0;
    while at < hits.len()
        invariant
            at <= hits@.len(),
            hit_failure(hits@, alive@, unread, 0) == hit_failure(
                hits@,
                alive@,
                unread,
                at as nat,
            ),
        decreases hits.len() - at,
    {
        if is_alive(alive, hits[at].row_id) {
            if !hits[at].score.is_finite() {
                return Err(
                    QueryError::Graph(
                        GraphSearchError::Geometry(
                            Geometry::DistanceNotRepresentable(hits[at].row_id),
                        ),
                    ),
                );
            }
            let due = match &unread {
                Some(fault) => fault.hit == at,
                None => false,
            };
            if due {
                if let Some(fault) = unread {
                    return Err(QueryError::Store(StoreError::Segment(fault.error)));
                }
            }
        }
        at = at + 1;
    }
    Ok(())
}

fn push_live(
    candidates: &mut Vec<SearchCandidate>,
    hits: &Vec<GraphHit>,
    alive: &Vec<bool>,
    source: RowSource,
    documents: &Vec<Option<DocumentVersion>>,
)
    ensures
        final(candidates)@ == old(candidates)@ + graph_candidates(
            hits@,
            alive@,
            source,
            documents@,
        ),
{
    let ghost passes = |hit: GraphHit| alive_at(alive@, hit.row_id as nat);
    let ghost made = |hit: GraphHit|
        SearchCandidate {
            row_id: GlobalRowId { source, local_row: hit.row_id },
            document: document_at(documents@, hit.row_id as nat),
            score: hit.score,
            exact_score: true,
        };
    let mut at: usize = 0;
    assert(hits@.take(0).filter(passes) == Seq::<GraphHit>::empty()) by {
        reveal(Seq::filter);
    }
    assert(candidates@ == old(candidates)@ + hits@.take(0).filter(passes).map_values(made));
    while at < hits.len()
        invariant
            at <= hits@.len(),
            passes == (|hit: GraphHit| alive_at(alive@, hit.row_id as nat)),
            made == (|hit: GraphHit|
                SearchCandidate {
                    row_id: GlobalRowId { source, local_row: hit.row_id },
                    document: document_at(documents@, hit.row_id as nat),
                    score: hit.score,
                    exact_score: true,
                }),
            candidates@ == old(candidates)@ + hits@.take(at as int).filter(passes).map_values(made),
        decreases hits.len() - at,
    {
        let ghost longer = hits@.take(at + 1);
        let ghost shorter = longer.drop_last();
        assert(shorter == hits@.take(at as int));
        assert(longer.last() == hits@[at as int]);
        assert(longer.filter(passes) == if passes(longer.last()) {
            shorter.filter(passes).push(longer.last())
        } else {
            shorter.filter(passes)
        }) by {
            reveal(Seq::filter);
        }
        let hit = hits[at];
        if is_alive(alive, hit.row_id) {
            candidates.push(
                SearchCandidate {
                    row_id: GlobalRowId::new(source, hit.row_id),
                    document: read_document(documents, hit.row_id as usize),
                    score: hit.score,
                    exact_score: true,
                },
            );
            assert(shorter.filter(passes).push(longer.last()).map_values(made) == shorter.filter(
                passes,
            ).map_values(made).push(made(longer.last())));
        }
        at = at + 1;
        assert(candidates@ == old(candidates)@ + hits@.take(at as int).filter(passes).map_values(
            made,
        ));
    }
    assert(hits@.take(at as int) == hits@);
}

impl SegmentGraphResult {
    /// The failure to take in the result, if there is one.
    pub open spec fn failure(
        self,
        totals: SearchTotals,
        alive: Seq<bool>,
        unread: Option<UnreadDocument>,
        denied: bool,
    ) -> Option<QueryError> {
        match self {
            SegmentGraphResult::Pruned { plan: _, graph_stats } => {
                if totals.graph_stats.sum_fits(graph_stats) {
                    None
                } else {
                    Some(overflow_error())
                }
            },
            SegmentGraphResult::Traversed {
                hits,
                plan: _,
                dims_touched,
                bytes_read,
                caller_thread: _,
                graph_stats,
            } => traversal_failure(
                totals,
                hits@,
                alive,
                dims_touched,
                bytes_read,
                graph_stats,
                unread,
                denied,
            ),
        }
    }

    /// The candidates that the result gives.
    pub open spec fn gives(
        self,
        alive: Seq<bool>,
        source: RowSource,
        documents: Seq<Option<DocumentVersion>>,
    ) -> Seq<SearchCandidate> {
        match self {
            SegmentGraphResult::Pruned { .. } => Seq::empty(),
            SegmentGraphResult::Traversed { hits, .. } => graph_candidates(
                hits@,
                alive,
                source,
                documents,
            ),
        }
    }

    /// The totals behind the result.
    pub open spec fn sums(self, before: SearchTotals, after: SearchTotals) -> bool {
        match self {
            SegmentGraphResult::Pruned { plan: _, graph_stats } => {
                &&& after.dims_touched == before.dims_touched
                &&& after.bytes_read == before.bytes_read
                &&& after.worker_thread_ids@ == before.worker_thread_ids@
                &&& after.graph_stats == before.graph_stats.sum(graph_stats)
            },
            SegmentGraphResult::Traversed {
                hits: _,
                plan: _,
                dims_touched,
                bytes_read,
                caller_thread,
                graph_stats,
            } => {
                &&& after.dims_touched == before.dims_touched + dims_touched
                &&& after.bytes_read == before.bytes_read + bytes_read
                &&& after.worker_thread_ids@ == distinct_union(
                    before.worker_thread_ids@,
                    seq![caller_thread],
                )
                &&& after.graph_stats == before.graph_stats.sum(graph_stats)
            },
        }
    }

    /// The record of the result.
    pub open spec fn spec_merged(self) -> MergedSegmentGraph {
        match self {
            SegmentGraphResult::Pruned { plan, .. } => MergedSegmentGraph {
                plan,
                traversed: false,
            },
            SegmentGraphResult::Traversed { plan, .. } => MergedSegmentGraph {
                plan,
                traversed: true,
            },
        }
    }

    /// Takes a segment's graph result into the search: only live rows become
    /// candidates, and a live distance that single precision cannot hold is an
    /// error. `unread` is the first document of a live hit that could not be
    /// read, where there is one. On a failure nothing is taken in.
    pub fn merge_into(
        self,
        totals: &mut SearchTotals,
        alive: &Vec<bool>,
        source: RowSource,
        documents: &Vec<Option<DocumentVersion>>,
        unread: Option<UnreadDocument>,
        denied: bool,
    ) -> (result: Result<MergedSegmentGraph, QueryError>)
        ensures
            match self.failure(*old(totals), alive@, unread, denied) {
                Some(error) => {
                    &&& result == Err::<MergedSegmentGraph, QueryError>(error)
                    &&& final(totals).same(*old(totals))
                },
                None => {
                    &&& result == Ok::<MergedSegmentGraph, QueryError>(self.spec_merged())
                    &&& final(totals).candidates@ == old(totals).candidates@ + self.gives(
                        alive@,
                        source,
                        documents@,
                    )
                    &&& self.sums(*old(totals), *final(totals))
                },
            },
    {
        match self {
            SegmentGraphResult::Pruned { plan, graph_stats } => {
                let mut stats = totals.graph_stats;
                add_traversal_stats(&mut stats, graph_stats)?;
                totals.graph_stats = stats;
                assert(totals.candidates@ == old(totals).candidates@ + Seq::<
                    SearchCandidate,
                >::empty());
                Ok(MergedSegmentGraph { plan, traversed: false })
            },
            SegmentGraphResult::Traversed {
                hits,
                plan,
                dims_touched,
                bytes_read,
                caller_thread,
                graph_stats,
            } => {
                let dims: u64 = match totals.dims_touched.checked_add(dims_touched) {
                    Some(sum) => sum,
                    None => {
                        return Err(QueryError::Scan(ScanError::ArithmeticOverflow));
                    },
                };
                let bytes: u64 = match totals.bytes_read.checked_add(bytes_read) {
                    Some(sum) => sum,
                    None => {
                        return Err(QueryError::Scan(ScanError::ArithmeticOverflow));
                    },
                };
                let mut stats = totals.graph_stats;
                add_traversal_stats(&mut stats, graph_stats)?;
                reserve_global_candidates(count_live(&hits, alive), denied)?;
                check_hits(&hits, alive, unread)?;
                totals.dims_touched = dims;
                totals.bytes_read = bytes;
                totals.graph_stats = stats;
                let mut callers: Vec<u64> = Vec::new();
                callers.push(caller_thread);
                assert(callers@ == seq![caller_thread]);
                add_workers(&mut totals.worker_thread_ids, &callers);
                push_live(&mut totals.candidates, &hits, alive, source, documents);
                Ok(MergedSegmentGraph { plan, traversed: true })
            },
        }
    }
}

/// The larger of two numbers in numeric order.
pub open spec fn larger(left: Double, right: Double) -> Double {
    if numeric(left) < numeric(right) {
        right
    } else {
        left
    }
}

/// Folds one source's upper bound on the squared distance into the ceiling of
/// the query; a bound that is not finite is an error.
pub fn fold_vector_ceiling(current: Double, bound: Double) -> (result: Result<Double, QueryError>)
    ensures
        result == if bound.spec_is_finite() {
            Ok(larger(current, bound))
        } else {
            Err(
                QueryError::Store(
                    StoreError::Segment(SegmentError::Geometry(Geometry::NormEnclosureNotFinite)),
                ),
            )
        },
{
    if !bound.is_finite() {
        return Err(
            QueryError::Store(
                StoreError::Segment(SegmentError::Geometry(Geometry::NormEnclosureNotFinite)),
            ),
        );
    }
    if numeric_below(current, bound) {
        Ok(bound)
    } else {
        Ok(current)
    }
}

/// The ceiling over the first `n` sources: the largest bound, or the failure of
/// the first source that has none.
pub open spec fn ceiling(
    active: Option<Double>,
    segments: Seq<Result<Double, QueryError>>,
    n: nat,
) -> Result<Double, QueryError>
    decreases n,
{
    if n == 0 {
        match active {
            None => Ok(Double { bits: 0 }),
            Some(bound) => if bound.spec_is_finite() {
                Ok(larger(Double { bits: 0 }, bound))
            } else {
                Err(
                    QueryError::Store(
                        StoreError::Segment(
                            SegmentError::Geometry(Geometry::NormEnclosureNotFinite),
                        ),
                    ),
                )
            },
        }
    } else {
        match ceiling(active, segments, (n - 1) as nat) {
            Err(error) => Err(error),
            Ok(current) => match segments[n - 1] {
                Err(error) => Err(error),
                Ok(bound) => if bound.spec_is_finite() {
                    Ok(larger(current, bound))
                } else {
                    Err(
                        QueryError::Store(
                            StoreError::Segment(
                                SegmentError::Geometry(Geometry::NormEnclosureNotFinite),
                            ),
                        ),
                    )
                },
            },
        }
    }
}

/// Folds the bound of every source into the query-wide ceiling. `active` is the
/// bound of the active segment, where it has rows; `segments` are those of the
/// sealed segments or why there is none.
pub fn fold_exact_vector_ceiling(
    active: Option<Double>,
    segments: Vec<Result<Double, QueryError>>,
) -> (result: Result<Double, QueryError>)
    ensures
        result == ceiling(active, segments@, segments@.len()),
{
    let ghost all = segments@;
    let mut rest = segments;
    let mut current = Double { bits: 0 };
    if let Some(bound) = active {
        match fold_vector_ceiling(current, bound) {
            Ok(next) => {
                current = next;
            },
            Err(error) => {
                proof {
                    lemma_ceiling_failure_stays(active, all, 0, all.len());
                }
                return Err(error);
            },
        }
    }
    let mut reversed: Vec<Result<Double, QueryError>> = Vec::with_capacity(rest.len());
    while rest.len() > 0
        invariant
            rest@.len() + reversed@.len() == all.len(),
            rest@ == all.take(rest@.len() as int),
            forall|i: int|
                0 <= i < reversed@.len() ==> #[trigger] reversed@[i] == all[all.len() - 1 - i],
        decreases rest.len(),
    {
        match rest.pop() {
            Some(item) => {
                reversed.push(item);
            },
            None => {},
        }
    }
    let ghost mut done: nat = 0;
    while reversed.len() > 0
        invariant
            all == segments@,
            done + reversed@.len() == all.len(),
            forall|i: int|
                0 <= i < reversed@.len() ==> #[trigger] reversed@[i] == all[all.len() - 1 - i],
            ceiling(active, all, done) == Ok::<Double, QueryError>(current),
        decreases reversed.len(),
    {
        match reversed.pop() {
            Some(item) => {
                assert(item == all[done as int]);
                match item {
                    Err(error) => {
                        proof {
                            lemma_ceiling_failure_stays(active, all, done + 1, all.len());
                        }
                        return Err(error);
                    },
                    Ok(bound) => {
                        match fold_vector_ceiling(current, bound) {
                            Ok(next) => {
                                current = next;
                            },
                            Err(error) => {
                                proof {
                                    lemma_ceiling_failure_stays(
                                        active,
                                        all,
                                        done + 1,
                                        all.len(),
                                    );
                                }
                                return Err(error);
                            },
                        }
                    },
                }
                proof {
                    done = done + 1;
                }
            },
            None => {},
        }
    }
    Ok(current)
}

proof fn lemma_ceiling_failure_stays(
    active: Option<Double>,
    segments: Seq<Result<Double, QueryError>>,
    n: nat,
    end: nat,
)
    requires
        n <= end <= segments.len(),
        ceiling(active, segments, n) is Err,
    ensures
        ceiling(active, segments, end) == ceiling(active, segments, n),
    decreases end - n,
{
    if n < end {
        lemma_ceiling_failure_stays(active, segments, n, (end - 1) as nat);
    }
}

/// Which stored bytes give a segment's norm enclosure.
#[derive(Clone, Copy, Debug, PartialEq, Eq, Structural)]
pub enum NormSource {
    Factors,
    ExactRows,
}

/// Which stored bytes give the norm enclosure of a segment of one scheme.
pub fn norm_source(scheme: u16) -> (result: Result<NormSource, QueryError>)
    ensures
        result == if scheme == 4 {
            Ok(NormSource::Factors)
        } else if scheme == 0 || scheme == 2 {
            Ok(NormSource::ExactRows)
        } else {
            Err(
                QueryError::Store(
                    StoreError::Segment(
                        SegmentError::Geometry(Geometry::NormEnclosureScheme(scheme)),
                    ),
                ),
            )
        },
{
    if scheme == 4 {
        Ok(NormSource::Factors)
    } else if scheme == 0 || scheme == 2 {
        Ok(NormSource::ExactRows)
    } else {
        Err(
            QueryError::Store(
                StoreError::Segment(SegmentError::Geometry(Geometry::NormEnclosureScheme(scheme))),
            ),
        )
    }
}

/// The norm enclosure of a segment of one scheme: its factors give it or its
/// exact rows.
pub open spec fn norm_range(
    scheme: u16,
    factors: Result<NormRange, SegmentError>,
    rows: Result<NormRange, SegmentError>,
) -> Result<NormRange, QueryError> {
    if scheme == 4 {
        rescore_rows(factors)
    } else if scheme == 0 || scheme == 2 {
        rescore_rows(rows)
    } else {
        Err(
            QueryError::Store(
                StoreError::Segment(SegmentError::Geometry(Geometry::NormEnclosureScheme(scheme))),
            ),
        )
    }
}

/// The norm enclosure of a segment; `factors` and `rows` are what walking each
/// region gives.
pub fn compute_segment_vector_ceiling_norm_range(
    scheme: u16,
    factors: Result<NormRange, SegmentError>,
    rows: Result<NormRange, SegmentError>,
) -> (result: Result<NormRange, QueryError>)
    ensures
        result == norm_range(scheme, factors, rows),
{
    match norm_source(scheme)? {
        NormSource::Factors => exact_rescore_rows(factors),
        NormSource::ExactRows => exact_rescore_rows(rows),
    }
}

/// The answer from a memory and what the memory is afterwards: what is
/// remembered is answered, and what is computed is remembered.
pub open spec fn recalled(
    remembered: Option<NormRange>,
    computed: Result<NormRange, QueryError>,
) -> (Result<NormRange, QueryError>, Option<NormRange>) {
    match remembered {
        Some(range) => (Ok(range), Some(range)),
        None => match computed {
            Ok(range) => (Ok(range), Some(range)),
            Err(error) => (Err(error), None),
        },
    }
}

/// The norm enclosure of a segment, whose region is walked only once.
pub fn remembered_segment_vector_ceiling_norm_range(
    remembered: &mut Option<NormRange>,
    scheme: u16,
    factors: Result<NormRange, SegmentError>,
    rows: Result<NormRange, SegmentError>,
) -> (result: Result<NormRange, QueryError>)
    ensures
        (result, *final(remembered)) == recalled(
            *old(remembered),
            norm_range(scheme, factors, rows),
        ),
{
    if let Some(range) = *remembered {
        return Ok(range);
    }
    let range = compute_segment_vector_ceiling_norm_range(scheme, factors, rows)?;
    *remembered = Some(range);
    Ok(range)
}

/// Remembering changes no answer: where the memory is empty or holds what the
/// segment's bytes give, the answer is what they give, and the memory stays so.
pub proof fn lemma_remembered_range_is_the_computed_one(
    remembered: Option<NormRange>,
    computed: Result<NormRange, QueryError>,
)
    requires
        remembered matches Some(range) ==> computed == Ok::<NormRange, QueryError>(range),
    ensures
        recalled(remembered, computed).0 == computed,
        recalled(remembered, computed).1 matches Some(range) ==> computed == Ok::<
            NormRange,
            QueryError,
        >(range),
{
}

/// Folds one source's worst score into the farthest distance of the query and
/// whether every allowed row was visited. A scan that returned candidates but no
/// worst score did not visit every row.
pub fn fold_worst_squared_l2(
    worst: &mut Option<Double>,
    exhaustive: &mut bool,
    worst_squared_l2: Option<Double>,
    candidates: usize,
)
    ensures
        *final(worst) == match worst_squared_l2 {
            Some(distance) => Some(
                match *old(worst) {
                    Some(current) => larger(current, distance),
                    None => distance,
                },
            ),
            None => *old(worst),
        },
        *final(exhaustive) == (*old(exhaustive) && (worst_squared_l2 is Some || candidates == 0)),
{
    match worst_squared_l2 {
        Some(distance) => {
            let next = match *worst {
                Some(current) => {
                    if numeric_below(current, distance) {
                        distance
                    } else {
                        current
                    }
                },
                None => distance,
            };
            *worst = Some(next);
        },
        None => {
            if candidates > 0 {
                *exhaustive = false;
            }
        },
    }
}

} // verus!
