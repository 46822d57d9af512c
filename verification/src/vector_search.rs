//! The vector search over one pinned generation: which source is searched how,
//! in which order, and how the outcomes become one global top-k.

use crate::candidates::distinct_union;
use crate::candidates::GraphSearchStats;
use crate::candidates::ScanCandidate;
use crate::candidates::ScanOutcome;
use crate::candidates::ScanStats;
use crate::candidates::SearchCandidate;
use crate::corpus::has_graph_spec;
use crate::corpus::live_rows;
use crate::corpus::snapshot_has_graph;
use crate::corpus::ActiveFacts;
use crate::corpus::SegmentFacts;
use crate::corpus::UnreadDocument;
use crate::error::Geometry;
use crate::error::GraphProfileError;
use crate::error::GraphSearchError;
use crate::error::QueryError;
use crate::error::ScanError;
use crate::error::SegmentError;
use crate::error::StoreError;
use crate::ids::DocumentVersion;
use crate::ids::EpochIdentity;
use crate::ids::RowSource;
use crate::ids::SegmentId;
use crate::materialize::MaterializationCounters;
use crate::options::auto_graph_search_options;
use crate::options::GraphBoundMode;
use crate::options::GraphSearchOptions;
use crate::options::GraphSearchProfile;
use crate::options::SearchOptions;
use crate::options::SearchTier;
use crate::plan::any_approximate;
use crate::plan::auto_uses_full_precision;
use crate::plan::plans_are_approximate;
use crate::plan::scan_reason;
use crate::plan::sealed_scan_reason;
use crate::plan::uses_full_precision;
use crate::plan::PlanChoice;
use crate::plan::ScanReason;
use crate::plan::SegmentPlan;
use crate::plan::SegmentTier;
use crate::rank::before;
use crate::rank::best;
use crate::rank::best_with_ties;
use crate::rank::inserted;
use crate::rank::kept_with_ties;
use crate::rank::lemma_best_of_best;
use crate::rank::lemma_permutation_keeps_members;
use crate::rank::lemma_ranked_is_permutation;
use crate::rank::lemma_ties_bounds;
use crate::rank::lemma_ties_hold_the_best;
use crate::rank::lemma_ties_of_parts;
use crate::rank::lemma_ties_of_ties;
use crate::rank::lemma_worse_items_change_nothing;
use crate::rank::rank_items;
use crate::rank::ranked;
use crate::rank::Ranked;
use crate::score::Double;
use crate::score::Score;
use crate::search::competitive_distance;
use crate::search::global_competitive_distance;
use crate::search::is_query_fault;
use crate::search::merge_failure;
use crate::search::merge_store_outcome;
use crate::search::query_is_valid;
use crate::search::retain_global_top_k;
use crate::search::rows_fit;
use crate::search::scan_candidates;
use crate::search::validate_query;
use crate::search::SearchTotals;
use crate::search::SegmentGraphResult;
use crate::traversal::rules_out;
use crate::traversal::score_position;
use crate::traversal::DistanceBounds;
use vstd::prelude::*;

verus! {

/// A sealed segment's place in the search order.
#[derive(Clone, Copy, Debug, PartialEq, Eq, Structural)]
pub struct SegmentTurn {
    pub ordinal: usize,
    pub row_count: u32,
    pub id: SegmentId,
}

impl Ranked for SegmentTurn {
    /// Larger segments first, then by identity.
    open spec fn rank(self) -> (int, int, int) {
        (-(self.row_count as int), self.id.value as int, 0)
    }

    fn ranks_before(&self, other: &Self) -> (result: bool) {
        self.row_count > other.row_count || (self.row_count == other.row_count && self.id.value
            < other.id.value)
    }

    fn ties_with(&self, other: &Self) -> (result: bool) {
        self.row_count == other.row_count
    }
}

/// The turns of the segments, in snapshot order.
pub open spec fn turns(segments: Seq<SegmentFacts>) -> Seq<SegmentTurn> {
    Seq::new(
        segments.len(),
        |i: int|
            SegmentTurn {
                ordinal: i as usize,
                row_count: segments[i].row_count,
                id: segments[i].id,
            },
    )
}

/// The order in which segments are searched: where a bound is shared, larger
/// segments come first, because they are more likely to tighten it.
pub open spec fn search_order(segments: Seq<SegmentFacts>, bound: GraphBoundMode) -> Seq<SegmentTurn> {
    match bound {
        GraphBoundMode::Shared => ranked(turns(segments)),
        GraphBoundMode::Independent => turns(segments),
    }
}

/// How a source's rows are scanned.
#[derive(Clone, Copy, Debug, PartialEq, Eq, Structural)]
pub enum ScanKind {
    /// Full-precision squared distances on the calling thread.
    SquaredL2,
    /// Single-precision rows by the query pool.
    F32,
    /// Four-bit codes by the query pool.
    Bit4,
    /// Eight-bit codes by the query pool.
    Int8,
}

/// What a search does next.
#[derive(Clone, Copy, Debug, PartialEq, Eq, Structural)]
pub enum SearchAction {
    ScanActive(ScanKind),
    ScanSealed { ordinal: usize, kind: ScanKind },
    Traverse { ordinal: usize, options: GraphSearchOptions, competitive: Option<Score> },
    Finish,
}

/// A vector search between two sources.
pub struct VectorSearch {
    pub tier: SearchTier,
    pub k: usize,
    pub bound: GraphBoundMode,
    pub requested_tier: Option<SearchTier>,
    pub hybrid_reason: Option<ScanReason>,
    /// Every scan scores full-precision vectors.
    pub full_precision: bool,
    /// Traversal options of an automatic query over published graphs.
    pub auto_options: Option<GraphSearchOptions>,
    /// The segments in the order of the search.
    pub order: Vec<SegmentTurn>,
    /// How many segments are done.
    pub done: usize,
    /// The active segment has rows and is not done.
    pub active_due: bool,
    pub totals: SearchTotals,
    pub plans: Vec<SegmentPlan>,
    /// Every candidate that a source has given, in order.
    pub offered: Ghost<Seq<SearchCandidate>>,
}

/// Whether scans of a query use full precision.
pub open spec fn precise(tier: SearchTier, segments: Seq<SegmentFacts>, active_rows: nat) -> bool {
    match tier {
        SearchTier::Exact => true,
        SearchTier::Graph(_) => true,
        SearchTier::Auto => uses_full_precision(segments, active_rows),
        SearchTier::Scan => false,
    }
}

/// What a search holds of the candidates that were offered.
pub open spec fn gathered(
    bound: GraphBoundMode,
    offered: Seq<SearchCandidate>,
    k: nat,
) -> Seq<SearchCandidate> {
    match bound {
        GraphBoundMode::Shared => best(ranked(offered), k),
        GraphBoundMode::Independent => offered,
    }
}

/// The first segment without a graph is at `at`.
pub open spec fn first_without_graph(segments: Seq<SegmentFacts>, at: int) -> bool {
    &&& 0 <= at < segments.len()
    &&& !segments[at].has_graph
    &&& forall|i: int| 0 <= i < at ==> (#[trigger] segments[i]).has_graph
}

/// Why a search is refused before any source is touched.
pub open spec fn is_refusal(
    query: Seq<Score>,
    maximum: nat,
    tier: SearchTier,
    segments: Seq<SegmentFacts>,
    profile: Result<GraphSearchProfile, GraphProfileError>,
    error: QueryError,
) -> bool {
    if !query_is_valid(query, maximum) {
        error matches QueryError::Scan(ScanError::Quant(fault)) && is_query_fault(
            query,
            maximum,
            fault,
        )
    } else if tier is Auto {
        &&& has_graph_spec(segments)
        &&& profile matches Err(reason)
        &&& error == QueryError::Graph(GraphSearchError::Profile(reason))
    } else {
        &&& tier is Graph
        &&& error matches QueryError::Store(StoreError::GraphUnavailable { segment_id })
        &&& exists|at: int|
            #[trigger] first_without_graph(segments, at) && segments[at].id == segment_id
    }
}

/// Whether a search is admitted.
pub open spec fn is_admitted(
    query: Seq<Score>,
    maximum: nat,
    tier: SearchTier,
    segments: Seq<SegmentFacts>,
    profile: Result<GraphSearchProfile, GraphProfileError>,
) -> bool {
    &&& query_is_valid(query, maximum)
    &&& tier is Auto && has_graph_spec(segments) ==> profile is Ok
    &&& tier is Graph ==> forall|i: int|
        0 <= i < segments.len() ==> (#[trigger] segments[i]).has_graph
}

/// Why a source cannot be scanned without what it needs.
pub open spec fn sealed_kind(full_precision: bool, pool: bool, scheme: u16) -> Result<
    ScanKind,
    QueryError,
> {
    if full_precision {
        Ok(ScanKind::SquaredL2)
    } else if !pool {
        Err(
            QueryError::Store(
                StoreError::Synchronization { component: "sealed scan-tier query pool" },
            ),
        )
    } else if scheme == 0 {
        Ok(ScanKind::F32)
    } else if scheme == 4 {
        Ok(ScanKind::Bit4)
    } else if scheme == 2 {
        Ok(ScanKind::Int8)
    } else {
        Err(
            QueryError::Store(
                StoreError::Segment(SegmentError::Geometry(Geometry::SealedScheme(scheme))),
            ),
        )
    }
}

/// How a sealed segment is scanned; `pool` says that a query pool is there.
pub fn scan_sealed_segment(full_precision: bool, pool: bool, scheme: u16) -> (result: Result<
    ScanKind,
    QueryError,
>)
    ensures
        result == sealed_kind(full_precision, pool, scheme),
{
    if full_precision {
        return Ok(ScanKind::SquaredL2);
    }
    if !pool {
        return Err(
            QueryError::Store(
                StoreError::Synchronization { component: "sealed scan-tier query pool" },
            ),
        );
    }
    if scheme == 0 {
        Ok(ScanKind::F32)
    } else if scheme == 4 {
        Ok(ScanKind::Bit4)
    } else if scheme == 2 {
        Ok(ScanKind::Int8)
    } else {
        Err(
            QueryError::Store(
                StoreError::Segment(SegmentError::Geometry(Geometry::SealedScheme(scheme))),
            ),
        )
    }
}

/// Number of live rows of a source.
pub open spec fn live_count(alive: Seq<bool>) -> nat {
    live_rows(alive, alive.len())
}

/// Counts the live rows of a source.
pub fn count_alive(alive: &Vec<bool>) -> (count: u64)
    ensures
        count == live_count(alive@),
{
    let mut count: u64 = 0;
    let mut at: usize = 0;
    while at < alive.len()
        invariant
            at <= alive@.len(),
            count <= at,
            count == live_rows(alive@, at as nat),
        decreases alive.len() - at,
    {
        if alive[at] {
            count = count + 1;
        }
        at = at + 1;
    }
    count
}

fn make_turns(segments: &Vec<SegmentFacts>) -> (result: Vec<SegmentTurn>)
    ensures
        result@ == turns(segments@),
{
    let mut result: Vec<SegmentTurn> = Vec::with_capacity(segments.len());
    let mut at: usize = 0;
    while at < segments.len()
        invariant
            at <= segments@.len(),
            result@ == turns(segments@).take(at as int),
        decreases segments.len() - at,
    {
        result.push(
            SegmentTurn {
                ordinal: at,
                row_count: segments[at].row_count,
                id: segments[at].id,
            },
        );
        at = at + 1;
        assert(result@ == turns(segments@).take(at as int));
    }
    assert(turns(segments@).take(at as int) == turns(segments@));
    result
}

/// Diagnostics of one vector search.
#[derive(Debug)]
pub struct VectorDiagnostics {
    pub snapshot_generation: u64,
    pub indexed_through_seq: u64,
    /// Rows may have been missed.
    pub approximate: bool,
    /// Every returned score is exact.
    pub exact_rescore: bool,
    pub requested_k: usize,
    pub returned: usize,
    pub budget_exhausted: bool,
    pub plan: Vec<SegmentPlan>,
    pub scan: ScanStats,
    pub graph: GraphSearchStats,
    pub epoch: Option<EpochIdentity>,
    /// What the text of the hits took, where the caller asked for it.
    pub materialization: Option<MaterializationCounters>,
    /// Nanoseconds.
    pub elapsed: u128,
}

/// Outcome of one vector search.
#[derive(Debug)]
pub struct SearchOutcome {
    pub candidates: Vec<SearchCandidate>,
    /// Upper bound on the squared distance of any row.
    pub vector_ceiling: Option<Double>,
    pub stats: ScanStats,
    pub graph_stats: GraphSearchStats,
    pub generation: u64,
    pub epoch: Option<EpochIdentity>,
    pub diagnostics: VectorDiagnostics,
}

/// What the end of a search takes from around it.
#[derive(Debug)]
pub struct SearchClosing {
    pub generation: u64,
    pub epoch: Option<EpochIdentity>,
    pub absorbed_through: u64,
    /// Whether the plans could be recorded.
    pub recorded: Result<(), StoreError>,
    pub ceiling: Result<Double, QueryError>,
    /// Nanoseconds.
    pub elapsed: u128,
}

/// Whether every candidate has an exact score.
pub open spec fn all_exact(candidates: Seq<SearchCandidate>) -> bool {
    forall|i: int| 0 <= i < candidates.len() ==> (#[trigger] candidates[i]).exact_score
}

fn candidates_are_exact(candidates: &Vec<SearchCandidate>) -> (result: bool)
    ensures
        result == all_exact(candidates@),
{
    let mut at: usize = 0;
    while at < candidates.len()
        invariant
            at <= candidates@.len(),
            forall|i: int| 0 <= i < at ==> (#[trigger] candidates@[i]).exact_score,
        decreases candidates.len() - at,
    {
        if !candidates[at].exact_score {
            assert(!candidates@[at as int].exact_score);
            return false;
        }
        at = at + 1;
    }
    true
}

impl VectorSearch {
    /// The search is over these segments, and holds of what was offered what
    /// its bound mode keeps.
    pub open spec fn wf(self, segments: Seq<SegmentFacts>) -> bool {
        &&& self.order@ == search_order(segments, self.bound)
        &&& self.done <= self.order@.len()
        &&& forall|i: int|
            0 <= i < self.order@.len() ==> (#[trigger] self.order@[i]).ordinal < segments.len()
        &&& self.totals.candidates@ == gathered(self.bound, self.offered@, self.k as nat)
    }

    /// Same question, same order.
    pub open spec fn same_question(self, other: VectorSearch) -> bool {
        &&& self.tier == other.tier
        &&& self.k == other.k
        &&& self.bound == other.bound
        &&& self.requested_tier == other.requested_tier
        &&& self.hybrid_reason == other.hybrid_reason
        &&& self.full_precision == other.full_precision
        &&& self.auto_options == other.auto_options
        &&& self.order@ == other.order@
    }

    /// Starts a search, or refuses it before any source is touched: the query
    /// has to be valid, an automatic query over published graphs needs their
    /// profile, and an explicit graph query needs a graph on every segment.
    pub fn begin(
        query: &Vec<Score>,
        maximum: usize,
        segments: &Vec<SegmentFacts>,
        active_rows: usize,
        options: SearchOptions,
        k: usize,
        bound: GraphBoundMode,
        requested_tier: Option<SearchTier>,
        hybrid_reason: Option<ScanReason>,
        profile: Result<GraphSearchProfile, GraphProfileError>,
    ) -> (result: Result<VectorSearch, QueryError>)
        ensures
            match result {
                Ok(search) => {
                    let tier = options.spec_tier();
                    &&& is_admitted(query@, maximum as nat, tier, segments@, profile)
                    &&& search.wf(segments@)
                    &&& search.tier == tier
                    &&& search.k == k
                    &&& search.bound == bound
                    &&& search.requested_tier == requested_tier
                    &&& search.hybrid_reason == hybrid_reason
                    &&& search.full_precision == precise(tier, segments@, active_rows as nat)
                    &&& search.auto_options == if tier is Auto && has_graph_spec(segments@) {
                        Some(GraphSearchOptions::spec_new(profile->Ok_0))
                    } else {
                        None
                    }
                    &&& search.done == 0
                    &&& search.active_due == (active_rows > 0)
                    &&& search.offered@ == Seq::<SearchCandidate>::empty()
                    &&& search.plans@ == Seq::<SegmentPlan>::empty()
                    &&& search.totals.dims_touched == 0
                    &&& search.totals.bytes_read == 0
                    &&& search.totals.worker_thread_ids@ == Seq::<u64>::empty()
                    &&& search.totals.graph_stats == GraphSearchStats::spec_zero()
                },
                Err(error) => is_refusal(
                    query@,
                    maximum as nat,
                    options.spec_tier(),
                    segments@,
                    profile,
                    error,
                ) && !is_admitted(query@, maximum as nat, options.spec_tier(), segments@, profile),
            },
    {
        let tier = options.tier();
        validate_query(query, maximum)?;
        let mut auto_options: Option<GraphSearchOptions> = None;
        if let SearchTier::Auto = tier {
            if snapshot_has_graph(segments) {
                match auto_graph_search_options(profile) {
                    Ok(found) => {
                        auto_options = Some(found);
                    },
                    Err(error) => {
                        return Err(error);
                    },
                }
            }
        }
        if let SearchTier::Graph(_) = tier {
            let mut at: usize = 0;
            while at < segments.len()
                invariant
                    at <= segments@.len(),
                    tier is Graph,
                    tier == options.spec_tier(),
                    query_is_valid(query@, maximum as nat),
                    forall|i: int| 0 <= i < at ==> (#[trigger] segments@[i]).has_graph,
                decreases segments.len() - at,
            {
                if !segments[at].has_graph {
                    assert(first_without_graph(segments@, at as int));
                    assert(!segments@[at as int].has_graph);
                    return Err(
                        QueryError::Store(
                            StoreError::GraphUnavailable { segment_id: segments[at].id },
                        ),
                    );
                }
                at = at + 1;
            }
        }
        let full_precision = match tier {
            SearchTier::Exact => true,
            SearchTier::Graph(_) => true,
            SearchTier::Auto => auto_uses_full_precision(segments, active_rows),
            SearchTier::Scan => false,
        };
        let mut order = make_turns(segments);
        let ghost plain = order@;
        assert forall|i: int| 0 <= i < plain.len() implies (#[trigger] plain[i]).ordinal
            < segments@.len() by {}
        if let GraphBoundMode::Shared = bound {
            rank_items(&mut order);
            proof {
                lemma_ranked_is_permutation(plain);
                lemma_permutation_keeps_members(order@, plain);
                assert forall|i: int| 0 <= i < order@.len() implies (#[trigger] order@[i]).ordinal
                    < segments@.len() by {
                    assert(order@.contains(order@[i]));
                    let j = choose|j: int| 0 <= j < plain.len() && plain[j] == order@[i];
                    assert(plain[j].ordinal < segments@.len());
                }
            }
        }
        let totals = SearchTotals::new();
        assert(ranked(Seq::<SearchCandidate>::empty()) == Seq::<SearchCandidate>::empty());
        Ok(
            VectorSearch {
                tier,
                k,
                bound,
                requested_tier,
                hybrid_reason,
                full_precision,
                auto_options,
                order,
                done: 0,
                active_due: active_rows > 0,
                totals,
                plans: Vec::new(),
                offered: Ghost(Seq::empty()),
            },
        )
    }

    /// Traversal options for a segment, where it is traversed.
    pub open spec fn spec_graph_options(self, has_graph: bool) -> Option<GraphSearchOptions> {
        match self.tier {
            SearchTier::Graph(options) => Some(options),
            SearchTier::Auto => if has_graph {
                self.auto_options
            } else {
                None
            },
            _ => None,
        }
    }

    /// What the search does next.
    pub open spec fn spec_next(self, segments: Seq<SegmentFacts>, pool: bool) -> Result<
        SearchAction,
        QueryError,
    > {
        if self.active_due {
            if self.full_precision {
                Ok(SearchAction::ScanActive(ScanKind::SquaredL2))
            } else if pool {
                Ok(SearchAction::ScanActive(ScanKind::Bit4))
            } else {
                Err(
                    QueryError::Store(
                        StoreError::Synchronization { component: "active scan-tier query pool" },
                    ),
                )
            }
        } else if self.done < self.order@.len() {
            let ordinal = self.order@[self.done as int].ordinal;
            let segment = segments[ordinal as int];
            match self.spec_graph_options(segment.has_graph) {
                Some(options) => Ok(
                    SearchAction::Traverse {
                        ordinal,
                        options,
                        competitive: competitive_distance(
                            self.totals.candidates@,
                            self.k as nat,
                        ),
                    },
                ),
                None => match sealed_kind(self.full_precision, pool, segment.scheme) {
                    Ok(kind) => Ok(SearchAction::ScanSealed { ordinal, kind }),
                    Err(error) => Err(error),
                },
            }
        } else {
            Ok(SearchAction::Finish)
        }
    }

    /// Decides what the search does next: the active segment first, then the
    /// sealed segments in order. Tiering follows what is published now: a graph
    /// that is due but not built is scanned.
    pub fn next(&self, segments: &Vec<SegmentFacts>, pool: bool) -> (result: Result<
        SearchAction,
        QueryError,
    >)
        requires
            self.wf(segments@),
        ensures
            result == self.spec_next(segments@, pool),
    {
        if self.active_due {
            if self.full_precision {
                return Ok(SearchAction::ScanActive(ScanKind::SquaredL2));
            }
            if pool {
                return Ok(SearchAction::ScanActive(ScanKind::Bit4));
            }
            return Err(
                QueryError::Store(
                    StoreError::Synchronization { component: "active scan-tier query pool" },
                ),
            );
        }
        if self.done >= self.order.len() {
            return Ok(SearchAction::Finish);
        }
        assert(self.order@[self.done as int].ordinal < segments@.len());
        let ordinal: usize = self.order[self.done].ordinal;
        let graph_options = match self.tier {
            SearchTier::Graph(options) => Some(options),
            SearchTier::Auto => {
                if segments[ordinal].has_graph {
                    self.auto_options
                } else {
                    None
                }
            },
            _ => None,
        };
        match graph_options {
            Some(options) => Ok(
                SearchAction::Traverse {
                    ordinal,
                    options,
                    competitive: global_competitive_distance(&self.totals.candidates, self.k),
                },
            ),
            None => match scan_sealed_segment(self.full_precision, pool, segments[ordinal].scheme) {
                Ok(kind) => Ok(SearchAction::ScanSealed { ordinal, kind }),
                Err(error) => Err(error),
            },
        }
    }

    /// Whether the active segment and every sealed one are done.
    pub open spec fn is_done(self) -> bool {
        !self.active_due && self.done >= self.order@.len()
    }

    fn settle(&mut self, Ghost(earlier): Ghost<Seq<SearchCandidate>>)
        requires
            old(self).totals.candidates@ == gathered(
                old(self).bound,
                earlier,
                old(self).k as nat,
            ) + old(self).offered@.skip(earlier.len() as int),
            earlier.len() <= old(self).offered@.len(),
            old(self).offered@.take(earlier.len() as int) == earlier,
        ensures
            final(self).same_question(*old(self)),
            final(self).done == old(self).done,
            final(self).active_due == old(self).active_due,
            final(self).plans@ == old(self).plans@,
            final(self).offered@ == old(self).offered@,
            final(self).totals.dims_touched == old(self).totals.dims_touched,
            final(self).totals.bytes_read == old(self).totals.bytes_read,
            final(self).totals.worker_thread_ids@ == old(self).totals.worker_thread_ids@,
            final(self).totals.graph_stats == old(self).totals.graph_stats,
            final(self).totals.candidates@ == gathered(
                final(self).bound,
                final(self).offered@,
                final(self).k as nat,
            ),
    {
        let ghost all = self.offered@;
        let ghost later = all.skip(earlier.len() as int);
        assert(all =~= all.take(earlier.len() as int) + later);
        if let GraphBoundMode::Shared = self.bound {
            proof {
                lemma_best_of_best(earlier, later, self.k as nat);
            }
            retain_global_top_k(&mut self.totals.candidates, self.k);
        }
    }

    /// Takes the outcome of the active segment's scan.
    pub fn accept_active(
        &mut self,
        segments: &Vec<SegmentFacts>,
        active: &ActiveFacts,
        outcome: &ScanOutcome,
        denied: bool,
    ) -> (result: Result<(), QueryError>)
        requires
            old(self).wf(segments@),
            old(self).active_due,
        ensures
            final(self).wf(segments@),
            final(self).same_question(*old(self)),
            final(self).done == old(self).done,
            result == match merge_failure(old(self).totals, *outcome, None, denied) {
                Some(error) => Err(error),
                None => Ok(()),
            },
            result is Err ==> final(self).offered@ == old(self).offered@ && final(self).active_due,
            result is Ok ==> {
                &&& !final(self).active_due
                &&& final(self).offered@ == old(self).offered@ + scan_candidates(
                    outcome.candidates@,
                    RowSource::Active,
                    active.documents@,
                    old(self).full_precision,
                )
                &&& final(self).plans@ == old(self).plans@.push(
                    SegmentPlan {
                        source: RowSource::Active,
                        tier: SegmentTier::ActiveScan,
                        live_rows: live_count(active.alive@) as u64,
                        choice: PlanChoice::Scan(ScanReason::ActiveSegment),
                    },
                )
                &&& final(self).totals.dims_touched == old(self).totals.dims_touched
                    + outcome.stats.dims_touched
                &&& final(self).totals.bytes_read == old(self).totals.bytes_read
                    + outcome.stats.bytes_read
                &&& final(self).totals.worker_thread_ids@ == distinct_union(
                    old(self).totals.worker_thread_ids@,
                    outcome.stats.worker_thread_ids@,
                )
                &&& final(self).totals.graph_stats == old(self).totals.graph_stats
            },
    {
        let ghost earlier = self.offered@;
        let ghost given = scan_candidates(
            outcome.candidates@,
            RowSource::Active,
            active.documents@,
            self.full_precision,
        );
        merge_store_outcome(
            &mut self.totals,
            outcome,
            RowSource::Active,
            &active.documents,
            None,
            self.full_precision,
            denied,
        )?;
        proof {
            self.offered@ = earlier + given;
            assert(self.offered@.skip(earlier.len() as int) == given);
            assert(self.offered@.take(earlier.len() as int) == earlier);
        }
        self.plans.push(
            SegmentPlan::unfiltered_scan(
                RowSource::Active,
                SegmentTier::ActiveScan,
                count_alive(&active.alive),
                ScanReason::ActiveSegment,
            ),
        );
        self.active_due = false;
        self.settle(Ghost(earlier));
        Ok(())
    }

    /// The segment whose turn it is.
    pub open spec fn current(self, segments: Seq<SegmentFacts>) -> SegmentFacts {
        segments[self.order@[self.done as int].ordinal as int]
    }

    /// Takes the outcome of a sealed segment's scan. `min_rows` is the row count
    /// from which segments like it get a graph, and `unread` the first document
    /// that could not be read.
    pub fn accept_scan(
        &mut self,
        segments: &Vec<SegmentFacts>,
        outcome: &ScanOutcome,
        min_rows: u32,
        unread: Option<UnreadDocument>,
        denied: bool,
    ) -> (result: Result<(), QueryError>)
        requires
            old(self).wf(segments@),
            old(self).done < old(self).order@.len(),
        ensures
            final(self).wf(segments@),
            final(self).same_question(*old(self)),
            final(self).active_due == old(self).active_due,
            result == match merge_failure(old(self).totals, *outcome, unread, denied) {
                Some(error) => Err(error),
                None => Ok(()),
            },
            result is Err ==> final(self).offered@ == old(self).offered@ && final(self).done == old(
                self,
            ).done,
            result is Ok ==> {
                let segment = old(self).current(segments@);
                &&& final(self).done == old(self).done + 1
                &&& final(self).offered@ == old(self).offered@ + scan_candidates(
                    outcome.candidates@,
                    RowSource::Sealed(segment.id),
                    segment.documents@,
                    old(self).full_precision || segment.scheme == 0,
                )
                &&& final(self).plans@ == old(self).plans@.push(
                    SegmentPlan {
                        source: RowSource::Sealed(segment.id),
                        tier: if segment.has_graph {
                            SegmentTier::SealedGraph
                        } else {
                            SegmentTier::SealedScan
                        },
                        live_rows: live_count(segment.alive@) as u64,
                        choice: PlanChoice::Scan(
                            scan_reason(
                                segment,
                                min_rows,
                                old(self).requested_tier,
                                old(self).hybrid_reason,
                            ),
                        ),
                    },
                )
                &&& final(self).totals.dims_touched == old(self).totals.dims_touched
                    + outcome.stats.dims_touched
                &&& final(self).totals.bytes_read == old(self).totals.bytes_read
                    + outcome.stats.bytes_read
                &&& final(self).totals.worker_thread_ids@ == distinct_union(
                    old(self).totals.worker_thread_ids@,
                    outcome.stats.worker_thread_ids@,
                )
                &&& final(self).totals.graph_stats == old(self).totals.graph_stats
            },
    {
        assert(self.order@[self.done as int].ordinal < segments@.len());
        assert(self.done < self.order.len());
        let ordinal: usize = self.order[self.done].ordinal;
        let source = RowSource::Sealed(segments[ordinal].id);
        let exact_score = self.full_precision || segments[ordinal].scheme == 0;
        let ghost earlier = self.offered@;
        let ghost given = scan_candidates(
            outcome.candidates@,
            source,
            segments@[ordinal as int].documents@,
            exact_score,
        );
        merge_store_outcome(
            &mut self.totals,
            outcome,
            source,
            &segments[ordinal].documents,
            unread,
            exact_score,
            denied,
        )?;
        proof {
            self.offered@ = earlier + given;
            assert(self.offered@.skip(earlier.len() as int) == given);
            assert(self.offered@.take(earlier.len() as int) == earlier);
        }
        let tier = if segments[ordinal].has_graph {
            SegmentTier::SealedGraph
        } else {
            SegmentTier::SealedScan
        };
        self.plans.push(
            SegmentPlan::unfiltered_scan(
                source,
                tier,
                count_alive(&segments[ordinal].alive),
                sealed_scan_reason(
                    &segments[ordinal],
                    min_rows,
                    self.requested_tier,
                    self.hybrid_reason,
                ),
            ),
        );
        self.done = self.done + 1;
        self.settle(Ghost(earlier));
        Ok(())
    }

    /// Takes the result of a segment's graph; `unread` is the first document
    /// that could not be read.
    pub fn accept_graph(
        &mut self,
        segments: &Vec<SegmentFacts>,
        graph: SegmentGraphResult,
        unread: Option<UnreadDocument>,
        denied: bool,
    ) -> (result: Result<(), QueryError>)
        requires
            old(self).wf(segments@),
            old(self).done < old(self).order@.len(),
        ensures
            final(self).wf(segments@),
            final(self).same_question(*old(self)),
            final(self).active_due == old(self).active_due,
            result == match graph.failure(
                old(self).totals,
                old(self).current(segments@).alive@,
                unread,
                denied,
            ) {
                Some(error) => Err(error),
                None => Ok(()),
            },
            result is Err ==> final(self).offered@ == old(self).offered@ && final(self).done == old(
                self,
            ).done,
            result is Ok ==> {
                let segment = old(self).current(segments@);
                &&& final(self).done == old(self).done + 1
                &&& final(self).offered@ == old(self).offered@ + graph.gives(
                    segment.alive@,
                    RowSource::Sealed(segment.id),
                    segment.documents@,
                )
                &&& final(self).plans@ == old(self).plans@.push(graph.spec_merged().plan)
                &&& graph.sums(old(self).totals, final(self).totals)
            },
    {
        assert(self.order@[self.done as int].ordinal < segments@.len());
        assert(self.done < self.order.len());
        let ordinal: usize = self.order[self.done].ordinal;
        let source = RowSource::Sealed(segments[ordinal].id);
        let ghost earlier = self.offered@;
        let ghost given = graph.gives(
            segments@[ordinal as int].alive@,
            source,
            segments@[ordinal as int].documents@,
        );
        let merged = graph.merge_into(
            &mut self.totals,
            &segments[ordinal].alive,
            source,
            &segments[ordinal].documents,
            unread,
            denied,
        )?;
        proof {
            self.offered@ = earlier + given;
            assert(self.offered@.skip(earlier.len() as int) == given);
            assert(self.offered@.take(earlier.len() as int) == earlier);
        }
        self.plans.push(merged.plan);
        self.done = self.done + 1;
        if merged.traversed {
            self.settle(Ghost(earlier));
        } else {
            assert(given == Seq::<SearchCandidate>::empty());
            assert(earlier + given == earlier);
            assert(self.totals.candidates@ == gathered(self.bound, earlier, self.k as nat));
        }
        Ok(())
    }

    /// Ends the search once every source is done: the best `k` of every candidate
    /// that was offered, with the work, the plans and the ceiling. It fails where the plans could not
    /// be recorded, then where there is no ceiling.
    pub fn finish(
        self,
        segments: &Vec<SegmentFacts>,
        active: &ActiveFacts,
        closing: SearchClosing,
    ) -> (result: Result<SearchOutcome, QueryError>)
        requires
            self.wf(segments@),
            self.is_done(),
        ensures
            match (closing.recorded, closing.ceiling) {
                (Err(error), _) => result == Err::<SearchOutcome, QueryError>(
                    QueryError::Store(error),
                ),
                (Ok(_), Err(error)) => result == Err::<SearchOutcome, QueryError>(error),
                (Ok(_), Ok(ceiling)) => result matches Ok(outcome) && {
                    &&& outcome.candidates@ == best(ranked(self.offered@), self.k as nat)
                    &&& outcome.vector_ceiling == Some(ceiling)
                    &&& outcome.stats.dims_touched == self.totals.dims_touched
                    &&& outcome.stats.bytes_read == self.totals.bytes_read
                    &&& outcome.stats.worker_thread_ids@ == self.totals.worker_thread_ids@
                    &&& outcome.stats.threads_used == self.totals.worker_thread_ids@.len()
                    &&& outcome.graph_stats == self.totals.graph_stats
                    &&& outcome.generation == closing.generation
                    &&& outcome.epoch == closing.epoch
                    &&& outcome.diagnostics.snapshot_generation == closing.generation
                    &&& outcome.diagnostics.indexed_through_seq == if active.indexed_through_seq
                        < closing.absorbed_through {
                        closing.absorbed_through
                    } else {
                        active.indexed_through_seq
                    }
                    &&& outcome.diagnostics.approximate == any_approximate(self.plans@)
                    &&& outcome.diagnostics.exact_rescore == all_exact(outcome.candidates@)
                    &&& outcome.diagnostics.requested_k == self.k
                    &&& outcome.diagnostics.returned == outcome.candidates@.len()
                    &&& !outcome.diagnostics.budget_exhausted
                    &&& outcome.diagnostics.plan@ == self.plans@
                    &&& outcome.diagnostics.scan.dims_touched == outcome.stats.dims_touched
                    &&& outcome.diagnostics.scan.bytes_read == outcome.stats.bytes_read
                    &&& outcome.diagnostics.scan.threads_used == outcome.stats.threads_used
                    &&& outcome.diagnostics.scan.worker_thread_ids@
                        == outcome.stats.worker_thread_ids@
                    &&& outcome.diagnostics.graph == self.totals.graph_stats
                    &&& outcome.diagnostics.epoch == closing.epoch
                    &&& outcome.diagnostics.materialization is None
                    &&& outcome.diagnostics.elapsed == closing.elapsed
                },
            },
    {
        match closing.recorded {
            Err(error) => {
                return Err(QueryError::Store(error));
            },
            Ok(_) => {},
        }
        let ceiling = match closing.ceiling {
            Ok(ceiling) => ceiling,
            Err(error) => {
                return Err(error);
            },
        };
        let ghost offered = self.offered@;
        proof {
            let none = Seq::<SearchCandidate>::empty();
            lemma_best_of_best(offered, none, self.k as nat);
            assert(offered + none == offered);
            assert(best(ranked(offered), self.k as nat) + none == best(
                ranked(offered),
                self.k as nat,
            ));
        }
        let k: usize = self.k;
        let totals = self.totals;
        let mut candidates = totals.candidates;
        retain_global_top_k(&mut candidates, k);
        let approximate = plans_are_approximate(&self.plans);
        let exact_rescore = candidates_are_exact(&candidates);
        let returned: usize = candidates.len();
        let indexed_through_seq: u64 = if active.indexed_through_seq < closing.absorbed_through {
            closing.absorbed_through
        } else {
            active.indexed_through_seq
        };
        let stats = ScanStats {
            dims_touched: totals.dims_touched,
            bytes_read: totals.bytes_read,
            threads_used: totals.worker_thread_ids.len(),
            worker_thread_ids: totals.worker_thread_ids,
        };
        let scan = stats.copied();
        Ok(
            SearchOutcome {
                candidates,
                vector_ceiling: Some(ceiling),
                stats,
                graph_stats: totals.graph_stats,
                generation: closing.generation,
                epoch: closing.epoch,
                diagnostics: VectorDiagnostics {
                    snapshot_generation: closing.generation,
                    indexed_through_seq,
                    approximate,
                    exact_rescore,
                    requested_k: k,
                    returned,
                    budget_exhausted: false,
                    plan: self.plans,
                    scan,
                    graph: totals.graph_stats,
                    epoch: closing.epoch,
                    materialization: None,
                    elapsed: closing.elapsed,
                },
            },
        )
    }
}

/// Sharing the bound changes no result: a segment that its bound rules out has
/// no row among the best `k`, whatever rows it would have given.
pub proof fn lemma_pruned_segment_changes_nothing(
    offered: Seq<SearchCandidate>,
    missed: Seq<SearchCandidate>,
    bounds: DistanceBounds,
    k: nat,
)
    requires
        rules_out(
            Some(bounds),
            competitive_distance(gathered(GraphBoundMode::Shared, offered, k), k),
        ),
        forall|i: int|
            0 <= i < missed.len() ==> score_position((#[trigger] missed[i]).score.spec_negated())
                >= score_position(bounds.lower),
    ensures
        best(ranked(offered + missed), k) == best(ranked(offered), k),
{
    let held = best(ranked(offered), k);
    lemma_ranked_is_permutation(offered);
    assert(held[k - 1] == ranked(offered)[k - 1]);
    assert forall|i: int| 0 <= i < missed.len() implies before(
        ranked(offered)[k - 1].rank(),
        (#[trigger] missed[i]).rank(),
    ) by {
        assert(score_position(missed[i].score.spec_negated()) >= score_position(bounds.lower));
    }
    lemma_worse_items_change_nothing(offered, missed, k);
}

/// Segments are searched exactly once each: the order holds every segment, as
/// often as the snapshot does.
pub proof fn lemma_order_holds_every_segment(segments: Seq<SegmentFacts>, bound: GraphBoundMode)
    ensures
        search_order(segments, bound).len() == segments.len(),
        search_order(segments, bound).to_multiset() == turns(segments).to_multiset(),
{
    lemma_ranked_is_permutation(turns(segments));
}

/// The scored live rows of one source.
pub struct SourceRows {
    pub source: RowSource,
    pub hits: Seq<ScanCandidate>,
    pub documents: Seq<Option<DocumentVersion>>,
}

impl SourceRows {
    /// What an exact scan of the source offers.
    pub open spec fn offers(self, hits: Seq<ScanCandidate>) -> Seq<SearchCandidate> {
        scan_candidates(hits, self.source, self.documents, true)
    }
}

/// All rows of the sources.
pub open spec fn all_rows(sources: Seq<SourceRows>) -> Seq<SearchCandidate>
    decreases sources.len(),
{
    if sources.len() == 0 {
        Seq::empty()
    } else {
        all_rows(sources.drop_last()) + sources.last().offers(sources.last().hits)
    }
}

/// The rows that are left where each source is cut behind its best `k` with
/// ties.
pub open spec fn kept_rows(sources: Seq<SourceRows>, k: nat) -> Seq<SearchCandidate>
    decreases sources.len(),
{
    if sources.len() == 0 {
        Seq::empty()
    } else {
        kept_rows(sources.drop_last(), k) + sources.last().offers(
            best_with_ties(ranked(sources.last().hits), k),
        )
    }
}

proof fn lemma_offers_insert(rows: SourceRows, s: Seq<ScanCandidate>, x: ScanCandidate)
    requires
        rows_fit(s),
        x.row_id <= u32::MAX,
    ensures
        inserted(rows.offers(s), rows.offers(seq![x])[0]) == rows.offers(inserted(s, x)),
        rows_fit(inserted(s, x)),
    decreases s.len(),
{
    let y = rows.offers(seq![x])[0];
    if s.len() == 0 {
        assert(inserted(rows.offers(s), y) == rows.offers(s).push(y));
        assert(rows.offers(s.push(x)) == rows.offers(s).push(y));
    } else {
        let last = s.last();
        assert(s[s.len() - 1].row_id <= u32::MAX);
        assert(rows.offers(s).last().rank() == (
            -last.score.order(),
            rows.source.rank(),
            last.row_id as int,
        ));
        if !before(x.rank(), last.rank()) {
            assert(rows.offers(s.push(x)) == rows.offers(s).push(y));
        } else {
            let shorter = s.drop_last();
            assert forall|i: int| 0 <= i < shorter.len() implies (#[trigger] shorter[i]).row_id
                <= u32::MAX by {
                assert(shorter[i] == s[i]);
            }
            lemma_offers_insert(rows, shorter, x);
            assert(rows.offers(s).drop_last() == rows.offers(shorter));
            let placed = inserted(shorter, x);
            assert(rows.offers(placed.push(last)) == rows.offers(placed).push(
                rows.offers(s).last(),
            ));
        }
    }
}

proof fn lemma_offers_keep_ranking(rows: SourceRows, s: Seq<ScanCandidate>)
    requires
        rows_fit(s),
    ensures
        ranked(rows.offers(s)) == rows.offers(ranked(s)),
        rows_fit(ranked(s)),
    decreases s.len(),
{
    if s.len() == 0 {
        assert(rows.offers(s) == Seq::<SearchCandidate>::empty());
    } else {
        let shorter = s.drop_last();
        assert forall|i: int| 0 <= i < shorter.len() implies (#[trigger] shorter[i]).row_id
            <= u32::MAX by {
            assert(shorter[i] == s[i]);
        }
        lemma_offers_keep_ranking(rows, shorter);
        assert(rows.offers(s).drop_last() == rows.offers(shorter));
        assert(s[s.len() - 1].row_id <= u32::MAX);
        assert(rows.offers(s).last() == rows.offers(seq![s.last()])[0]);
        lemma_offers_insert(rows, ranked(shorter), s.last());
    }
}

proof fn lemma_offers_keep_ties(rows: SourceRows, s: Seq<ScanCandidate>, k: nat, end: nat)
    requires
        end <= s.len(),
    ensures
        kept_with_ties(rows.offers(s), k, end) == kept_with_ties(s, k, end),
    decreases s.len() - end,
{
    if end < s.len() && 0 < k <= end {
        assert(rows.offers(s)[end as int].rank().0 == s[end as int].rank().0);
        assert(rows.offers(s)[k - 1].rank().0 == s[k - 1].rank().0);
        if s[end as int].rank().0 == s[k - 1].rank().0 {
            lemma_offers_keep_ties(rows, s, k, end + 1);
        }
    }
}

proof fn lemma_kept_rows_are_best(sources: Seq<SourceRows>, k: nat)
    requires
        forall|i: int| 0 <= i < sources.len() ==> rows_fit((#[trigger] sources[i]).hits),
    ensures
        best_with_ties(ranked(kept_rows(sources, k)), k) == best_with_ties(
            ranked(all_rows(sources)),
            k,
        ),
    decreases sources.len(),
{
    if sources.len() > 0 {
        let shorter = sources.drop_last();
        let last = sources.last();
        assert forall|i: int| 0 <= i < shorter.len() implies rows_fit(
            (#[trigger] shorter[i]).hits,
        ) by {
            assert(shorter[i] == sources[i]);
        }
        assert(rows_fit(sources[sources.len() - 1].hits));
        lemma_kept_rows_are_best(shorter, k);
        lemma_offers_keep_ranking(last, last.hits);
        let order = ranked(last.hits);
        let whole = last.offers(last.hits);
        let cut = last.offers(best_with_ties(order, k));
        assert(cut == best_with_ties(ranked(whole), k)) by {
            if order.len() > k {
                lemma_offers_keep_ties(last, order, k, k);
                lemma_ties_bounds(order, k, k);
                let kept = kept_with_ties(order, k, k) as int;
                assert(last.offers(order.take(kept)) == last.offers(order).take(kept));
            }
        }
        lemma_ties_of_ties(whole, k);
        lemma_ties_of_parts(kept_rows(shorter, k), cut, k);
        lemma_ties_of_parts(all_rows(shorter), whole, k);
    }
}

/// An exact search misses nothing: where every source is cut behind its best `k`
/// live rows with ties, the best `k` of what is left are the best `k` of all
/// live rows.
pub proof fn lemma_exact_search_finds_the_best_rows(sources: Seq<SourceRows>, k: nat)
    requires
        forall|i: int| 0 <= i < sources.len() ==> rows_fit((#[trigger] sources[i]).hits),
    ensures
        best(ranked(kept_rows(sources, k)), k) == best(ranked(all_rows(sources)), k),
{
    lemma_kept_rows_are_best(sources, k);
    lemma_ties_hold_the_best(ranked(kept_rows(sources, k)), k);
    lemma_ties_hold_the_best(ranked(all_rows(sources)), k);
}

/// An exact query asks for full-precision rows only: no source of it is read by
/// its quantized codes, and none is traversed.
pub proof fn lemma_exact_tier_reads_no_codes(
    search: VectorSearch,
    segments: Seq<SegmentFacts>,
    active_rows: nat,
    pool: bool,
)
    requires
        search.tier == SearchTier::Exact,
        search.full_precision == precise(search.tier, segments, active_rows),
    ensures
        search.spec_next(segments, pool) matches Ok(action) && match action {
            SearchAction::ScanActive(kind) => kind == ScanKind::SquaredL2,
            SearchAction::ScanSealed { kind, .. } => kind == ScanKind::SquaredL2,
            SearchAction::Traverse { .. } => false,
            SearchAction::Finish => true,
        },
{
}

} // verus!
