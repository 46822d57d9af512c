//! What a search decides between two steps, in terms of what it was asked and has seen.

use crate::candidates::add_workers;
use crate::candidates::distinct_union;
use crate::candidates::GraphSearchStats;
use crate::candidates::ScanStats;
use crate::candidates::SearchCounters;
use crate::corpus::SegmentFacts;
use crate::error::GraphProfileError;
use crate::error::QueryError;
use crate::exhaustive::check_scan_shape;
use crate::fusion::CandidateCoverage;
use crate::fusion::FusionError;
use crate::fusion::FusionLeg;
use crate::fusion::FusionOutcome;
use crate::fusion::FusionReport;
use crate::fusion::FusionTermination;
use crate::fusion::HybridProvenance;
use crate::fusion::ScorePrecision;
use crate::hybrid::corpus_rows;
use crate::hybrid::fuse_round;
use crate::hybrid::hybrid_window;
use crate::hybrid::round_provenance;
use crate::hybrid::row_sum;
use crate::hybrid::HybridWindow;
use crate::hybrid::HybridWork;
use crate::hybrid::UnionFusion;
use crate::hybrid::VectorDiagnosticsFlags;
use crate::hybrid_search::consume_hybrid_test_fault;
use crate::hybrid_search::HybridSearch;
use crate::hybrid_search::HybridStep;
use crate::hybrid_search::HybridTierResolution;
use crate::hybrid_search::VectorRound;
use crate::lexical_laws::sum_of;
use crate::observations::HybridScoreObserver;
use crate::options::GraphBoundMode;
use crate::options::GraphSearchOptions;
use crate::options::GraphSearchProfile;
use crate::options::HybridLegTestFault;
use crate::options::SearchOptions;
use crate::options::SearchTier;
use crate::plan::auto_uses_full_precision;
use crate::plan::graph_round_ef;
use crate::plan::graph_round_is_worth_it;
use crate::plan::plans_are_approximate;
use crate::plan::sealed_scan_reason;
use crate::plan::ExplicitScanTier;
use crate::plan::PlanChoice;
use crate::plan::ScanReason;
use crate::plan::SegmentPlan;
use crate::round::HybridRound;
use crate::score::Score;
use crate::search::validate_query;
use crate::search::GraphHit;
use crate::traversal::plan_traversal;
use crate::traversal::request_for;
use crate::traversal::segment_is_pruned;
use crate::traversal::DistanceBounds;
use crate::traversal::GraphFacts;
use crate::traversal::GraphRequest;
use crate::traversal::GraphTraversal;
use crate::traversal::RoundCounters;
use crate::traversal::TraversalPlan;
use crate::traversal::TraversalStep;
use crate::vector_laws::lemma_union_members;
use crate::vector_search::count_alive;
use crate::vector_search::scan_sealed_segment;
use crate::vector_search::ScanKind;
use crate::vector_search::SearchAction;
use crate::vector_search::VectorSearch;
use vstd::prelude::*;

verus! {

/// The smaller of two numbers.
pub open spec fn lower_of(left: int, right: int) -> int {
    if left <= right {
        left
    } else {
        right
    }
}

/// A result may miss rows exactly where some source was traversed.
pub proof fn lemma_only_a_traversal_is_approximate(plans: &Vec<SegmentPlan>, result: bool)
    requires
        call_ensures(plans_are_approximate, (plans,), result),
    ensures
        result <==> exists|i: int|
            0 <= i < plans@.len() && ((#[trigger] plans@[i]).choice matches PlanChoice::Graph { .. }),
{
    if result {
        let i = choose|i: int| 0 <= i < plans@.len() && (#[trigger] plans@[i]).spec_approximate();
        assert(plans@[i].choice matches PlanChoice::Graph { .. });
    }
    if exists|i: int|
        0 <= i < plans@.len() && ((#[trigger] plans@[i]).choice matches PlanChoice::Graph { .. }) {
        let i = choose|i: int|
            0 <= i < plans@.len() && ((#[trigger] plans@[i]).choice matches PlanChoice::Graph { .. });
        assert(plans@[i].spec_approximate());
    }
}

/// Why a sealed segment is scanned: a hybrid round's reason counts for a segment with a
/// graph, a tier that the caller chose comes next, a segment below the threshold never
/// gets a graph, and otherwise the graph is still to come.
pub proof fn lemma_a_scan_has_its_reason(
    segment: &SegmentFacts,
    min_rows: u32,
    requested_tier: Option<SearchTier>,
    hybrid_reason: Option<ScanReason>,
    reason: ScanReason,
)
    requires
        call_ensures(
            sealed_scan_reason,
            (segment, min_rows, requested_tier, hybrid_reason),
            reason,
        ),
    ensures
        segment.has_graph && hybrid_reason is Some ==> Some(reason) == hybrid_reason,
        !segment.has_graph || hybrid_reason is None ==> {
            &&& requested_tier == Some(SearchTier::Exact) ==> reason == ScanReason::ExplicitTier(
                ExplicitScanTier::Exact,
            )
            &&& requested_tier == Some(SearchTier::Scan) ==> reason == ScanReason::ExplicitTier(
                ExplicitScanTier::Scan,
            )
            &&& (requested_tier is None || requested_tier->0 is Auto || requested_tier->0 is Graph)
                ==> {
                &&& segment.row_count < min_rows ==> reason == (ScanReason::BelowGraphThreshold {
                    rows: segment.row_count,
                    min_rows,
                })
                &&& segment.row_count >= min_rows ==> reason == ScanReason::GraphPending
            }
        },
{
}

/// A round's traversal is four times as wide as what it asks for, and never narrower
/// than 140.
pub proof fn lemma_a_round_traverses_four_times_its_width(k: usize, ef: usize)
    requires
        call_ensures(graph_round_ef, (k,), ef),
    ensures
        ef >= 140,
        ef == 140 || ef == 4 * k || ef == usize::MAX,
        4 * k <= usize::MAX ==> ef >= 4 * k,
        ef == usize::MAX ==> 4 * k >= usize::MAX || usize::MAX == 140,
        k <= 35 ==> ef == 140,
        k > 35 && 4 * k <= usize::MAX ==> ef == 4 * k,
{
}

/// A round is worth a traversal while its width is at most a quarter of the rows, or
/// there are none.
pub proof fn lemma_a_traversal_is_worth_a_quarter(k: usize, rows: usize, result: bool, ef: usize)
    requires
        call_ensures(graph_round_is_worth_it, (k, rows), result),
        call_ensures(graph_round_ef, (k,), ef),
    ensures
        result <==> rows == 0 || 4 * ef <= rows,
{
}

/// An automatic search scores full-precision rows where a graph is published, or where
/// a full-precision segment stands beside rows that are held as codes.
pub proof fn lemma_mixed_rows_need_full_precision(
    segments: &Vec<SegmentFacts>,
    active_rows: usize,
    result: bool,
)
    requires
        call_ensures(auto_uses_full_precision, (segments, active_rows), result),
    ensures
        forall|i: int| 0 <= i < segments@.len() && (#[trigger] segments@[i]).has_graph ==> result,
        forall|i: int, j: int|
            0 <= i < segments@.len() && 0 <= j < segments@.len() && (
            #[trigger] segments@[i]).row_count > 0 && segments@[i].scheme == 0 && (
            #[trigger] segments@[j]).row_count > 0 && (segments@[j].scheme == 2
                || segments@[j].scheme == 4) ==> result,
        forall|i: int|
            0 <= i < segments@.len() && (#[trigger] segments@[i]).row_count > 0
                && segments@[i].scheme == 0 && active_rows > 0 ==> result,
        (forall|i: int|
            0 <= i < segments@.len() ==> !(#[trigger] segments@[i]).has_graph && (
            segments@[i].row_count == 0 || segments@[i].scheme != 0)) ==> !result,
        active_rows == 0 && (forall|i: int|
            0 <= i < segments@.len() ==> !(#[trigger] segments@[i]).has_graph && (
            segments@[i].row_count == 0 || segments@[i].scheme == 0)) ==> !result,
{
}

/// The kernel that reads a sealed segment: squared distances at full precision, and
/// otherwise the one of the codes that the segment holds, which needs a pool.
pub proof fn lemma_a_segment_is_read_by_its_codes(
    full_precision: bool,
    pool: bool,
    scheme: u16,
    result: Result<ScanKind, QueryError>,
)
    requires
        call_ensures(scan_sealed_segment, (full_precision, pool, scheme), result),
    ensures
        full_precision ==> result == Ok::<ScanKind, QueryError>(ScanKind::SquaredL2),
        !full_precision && !pool ==> result is Err,
        !full_precision && pool ==> {
            &&& result == Ok::<ScanKind, QueryError>(ScanKind::F32) <==> scheme == 0
            &&& result == Ok::<ScanKind, QueryError>(ScanKind::Int8) <==> scheme == 2
            &&& result == Ok::<ScanKind, QueryError>(ScanKind::Bit4) <==> scheme == 4
            &&& result is Err <==> scheme != 0 && scheme != 2 && scheme != 4
        },
{
}

/// The number of rows that are marked alive among the first `n`.
pub open spec fn marked(alive: Seq<bool>, n: nat) -> nat
    decreases n,
{
    if n == 0 {
        0
    } else {
        marked(alive, (n - 1) as nat) + if alive[n - 1] {
            1nat
        } else {
            0nat
        }
    }
}

proof fn lemma_live_rows_are_marked(alive: Seq<bool>, n: nat)
    requires
        n <= alive.len(),
    ensures
        crate::corpus::live_rows(alive, n) == marked(alive, n),
    decreases n,
{
    if n > 0 {
        lemma_live_rows_are_marked(alive, (n - 1) as nat);
    }
}

/// The live rows of a source are counted one by one.
pub proof fn lemma_live_rows_are_counted(alive: &Vec<bool>, count: u64)
    requires
        call_ensures(count_alive, (alive,), count),
    ensures
        count == marked(alive@, alive@.len()),
{
    lemma_live_rows_are_marked(alive@, alive@.len());
}

/// The next step of a vector search: the active segment first, at full precision or by
/// its codes; then each segment in turn, traversed where the tier asks for its graph
/// and scanned otherwise; and when none is left, the end.
pub proof fn lemma_a_search_takes_the_next_source(
    search: &VectorSearch,
    segments: &Vec<SegmentFacts>,
    pool: bool,
    result: Result<SearchAction, QueryError>,
)
    requires
        call_ensures(VectorSearch::next, (search, segments, pool), result),
    ensures
        search.active_due ==> match result {
            Ok(SearchAction::ScanActive(kind)) => kind == if search.full_precision {
                ScanKind::SquaredL2
            } else {
                ScanKind::Bit4
            },
            Ok(_) => false,
            Err(_) => !search.full_precision && !pool,
        },
        search.active_due && (search.full_precision || pool) ==> result is Ok,
        !search.active_due && search.done >= search.order@.len() ==> result == Ok::<
            SearchAction,
            QueryError,
        >(SearchAction::Finish),
        !search.active_due && search.done < search.order@.len() ==> {
            let turn = search.order@[search.done as int].ordinal;
            let segment = segments@[turn as int];
            let traverses = search.tier is Graph || (search.tier is Auto && segment.has_graph
                && search.auto_options is Some);
            match result {
                Ok(SearchAction::Traverse { ordinal, options, competitive }) => {
                    &&& traverses
                    &&& ordinal == turn
                    &&& search.tier matches SearchTier::Graph(chosen) ==> options == chosen
                    &&& search.tier is Auto ==> Some(options) == search.auto_options
                    &&& competitive matches Some(distance) ==> 0 < search.k
                        <= search.totals.candidates@.len() && distance
                        == search.totals.candidates@[search.k - 1].score.spec_negated()
                },
                Ok(SearchAction::ScanSealed { ordinal, kind }) => {
                    &&& !traverses
                    &&& ordinal == turn
                    &&& search.full_precision <==> kind == ScanKind::SquaredL2
                    &&& kind == ScanKind::F32 ==> segment.scheme == 0
                    &&& kind == ScanKind::Int8 ==> segment.scheme == 2
                    &&& kind == ScanKind::Bit4 ==> segment.scheme == 4
                },
                Ok(_) => false,
                Err(_) => !traverses && !search.full_precision,
            }
        },
{
}

/// A search begins with nothing found and nothing read, its tier that of the options or
/// automatic; it is refused only for its vector, a missing profile or a missing graph.
pub proof fn lemma_a_search_begins_empty(
    query: &Vec<Score>,
    maximum: usize,
    segments: &Vec<SegmentFacts>,
    active_rows: usize,
    options: SearchOptions,
    k: usize,
    bound: GraphBoundMode,
    requested_tier: Option<SearchTier>,
    hybrid_reason: Option<ScanReason>,
    profile: Result<GraphSearchProfile, GraphProfileError>,
    result: Result<VectorSearch, QueryError>,
)
    requires
        call_ensures(
            VectorSearch::begin,
            (
                query,
                maximum,
                segments,
                active_rows,
                options,
                k,
                bound,
                requested_tier,
                hybrid_reason,
                profile,
            ),
            result,
        ),
    ensures
        ({
            let tier = match options.tier {
                Some(tier) => tier,
                None => SearchTier::Auto,
            };
            let has_graph = exists|i: int|
                0 <= i < segments@.len() && (#[trigger] segments@[i]).has_graph;
            let finite = forall|i: int|
                0 <= i < query@.len() ==> (#[trigger] query@[i]).spec_is_finite();
            let accepted = 0 < query@.len() <= maximum && finite && (tier is Auto && has_graph
                ==> profile is Ok) && (tier is Graph ==> forall|i: int|
                0 <= i < segments@.len() ==> (#[trigger] segments@[i]).has_graph);
            &&& result is Ok <==> accepted
            &&& result matches Ok(search) ==> {
                &&& search.tier == tier
                &&& search.k == k
                &&& search.bound == bound
                &&& search.requested_tier == requested_tier
                &&& search.hybrid_reason == hybrid_reason
                &&& tier is Exact || tier is Graph ==> search.full_precision
                &&& tier is Scan ==> !search.full_precision
                &&& tier is Auto && has_graph ==> search.full_precision
                &&& search.auto_options is Some <==> tier is Auto && has_graph
                &&& search.active_due <==> active_rows > 0
                &&& search.done == 0
                &&& search.order@.len() == segments@.len()
                &&& search.offered@.len() == 0
                &&& search.plans@.len() == 0
                &&& search.totals.candidates@.len() == 0
                &&& search.totals.dims_touched == 0
                &&& search.totals.bytes_read == 0
            }
        }),
{
    if let Ok(search) = result {
        crate::vector_search::lemma_order_holds_every_segment(segments@, bound);
        crate::rank::lemma_best_is_a_selection(search.offered@, k as nat);
    }
}

/// What a traversal asks for: at first as many as are wanted and there are; where rows
/// were deleted it may widen by as many as were deleted, and it is done with as many
/// live rows as are wanted and there are.
pub proof fn lemma_a_traversal_is_planned_for_the_deleted(
    facts: &GraphFacts,
    options: &GraphSearchOptions,
    k: usize,
    result: Result<TraversalPlan, QueryError>,
)
    requires
        call_ensures(plan_traversal, (facts, options, k), result),
    ensures
        result matches Ok(plan) ==> {
            let first = lower_of(k as int, facts.node_count as int);
            &&& plan.segment_k == first
            &&& plan.has_tombstones <==> facts.tombstone_count > 0
            &&& options.ef matches Some(ef) ==> ef >= first
            &&& facts.tombstone_count == 0 ==> plan.target_live_k == first
                && plan.maximum_candidate_k == first
            &&& facts.tombstone_count > 0 ==> {
                let target = lower_of(facts.live_count as int, k as int);
                let wide = lower_of(target + facts.tombstone_count, facts.node_count as int);
                &&& plan.target_live_k == target
                &&& plan.maximum_candidate_k >= wide && plan.maximum_candidate_k >= first
                &&& plan.maximum_candidate_k == wide || plan.maximum_candidate_k == first
            }
        },
        options.ef is None && facts.tombstone_count == 0 ==> result is Ok,
{
}

/// A request asks for its candidates, with an explicit width that is never below them.
pub proof fn lemma_a_request_is_wide_enough(
    options: &GraphSearchOptions,
    candidate_k: usize,
    request: GraphRequest,
)
    requires
        call_ensures(request_for, (options, candidate_k), request),
    ensures
        request.candidate_k == candidate_k,
        request.ef is None <==> options.ef is None,
        request.ef matches Some(width) ==> {
            &&& width >= candidate_k && width >= options.ef->0
            &&& width == candidate_k || width == options.ef->0
        },
{
}

/// How many of some hits are alive.
pub open spec fn live_among(hits: Seq<GraphHit>, alive: Seq<bool>) -> nat
    decreases hits.len(),
{
    if hits.len() == 0 {
        0
    } else {
        live_among(hits.drop_last(), alive) + if hits.last().row_id < alive.len()
            && alive[hits.last().row_id as int] {
            1nat
        } else {
            0nat
        }
    }
}

proof fn lemma_live_hits_are_counted(hits: Seq<GraphHit>, alive: Seq<bool>)
    ensures
        crate::search::live_hits(hits, alive).len() == live_among(hits, alive),
    decreases hits.len(),
{
    reveal(Seq::filter);
    if hits.len() > 0 {
        lemma_live_hits_are_counted(hits.drop_last(), alive);
    }
}

/// A traversal ends with the round that has the live rows it wants, or where nothing was
/// deleted; otherwise it widens to twice its width within the plan, and where it cannot
/// widen it fails. Its work is the sum of its rounds.
pub proof fn lemma_a_traversal_widens_until_it_has_enough(
    traversal: &mut GraphTraversal,
    counters: &RoundCounters,
    hits: &Vec<GraphHit>,
    alive: &Vec<bool>,
    result: Result<TraversalStep, QueryError>,
)
    requires
        call_ensures(GraphTraversal::accept_round, (traversal, counters, hits, alive), result),
    ensures
        ({
            let (before, after) = (*old(traversal), *final(traversal));
            let enough = !before.plan.has_tombstones || live_among(hits@, alive@)
                >= before.plan.target_live_k;
            &&& after.plan == before.plan && after.options == before.options
            &&& result is Err ==> after == before
            &&& match result {
                Ok(TraversalStep::Done) => enough && after.candidate_k == before.candidate_k,
                Ok(TraversalStep::Widen(request)) => {
                    let double = 2 * before.candidate_k;
                    &&& !enough
                    &&& before.candidate_k < request.candidate_k <= before.plan.maximum_candidate_k
                    &&& request.candidate_k == before.plan.maximum_candidate_k
                        || request.candidate_k >= double
                    &&& request.candidate_k <= double || request.candidate_k == 1
                    &&& after.candidate_k == request.candidate_k
                },
                Err(_) => true,
            }
            &&& result is Ok ==> {
                &&& after.work.dims_touched == before.work.dims_touched + counters.dims_touched
                &&& after.work.bytes_read == before.work.bytes_read + counters.bytes_read
                &&& after.work.candidates_scored == before.work.candidates_scored
                    + counters.candidates_scored
                &&& after.work.candidates_rescored == before.work.candidates_rescored
                    + counters.candidates_rescored
            }
        }),
{
    lemma_live_hits_are_counted(hits@, alive@);
}

/// A segment is skipped where its nearest row is farther than the distance to beat, and
/// only there.
pub proof fn lemma_a_farther_segment_is_skipped(
    bounds: Option<DistanceBounds>,
    competitive: Option<Score>,
    result: bool,
)
    requires
        call_ensures(segment_is_pruned, (bounds, competitive), result),
    ensures
        result ==> bounds is Some && competitive is Some,
        result && bounds->0.lower.bits < 0x8000_0000 && competitive->0.bits < 0x8000_0000
            ==> bounds->0.lower.bits > competitive->0.bits && bounds->0.lower.bits <= 0x7f80_0000
            && competitive->0.bits <= 0x7f80_0000,
        result ==> competitive->0.bits < 0x8000_0000 ==> bounds->0.lower.bits < 0x8000_0000,
        bounds is Some && competitive is Some && bounds->0.lower.bits <= 0x7f80_0000
            && competitive->0.bits <= 0x7f80_0000 && bounds->0.upper.bits <= 0x47ef_ffff_e000_0000
            ==> (result <==> bounds->0.lower.bits > competitive->0.bits),
{
}

/// The window of a hybrid round: five times the hits that are asked for, at least
/// fifty, and never more than there are rows; none for no hits.
pub proof fn lemma_a_window_is_five_times_the_hits(
    k: usize,
    rows: usize,
    result: Result<HybridWindow, FusionError>,
)
    requires
        call_ensures(hybrid_window, (k, rows), result),
    ensures
        result is Err <==> 5 * k > usize::MAX,
        result matches Ok(window) ==> {
            &&& k == 0 ==> window.width == 0
            &&& 0 < k <= 10 ==> window.width == lower_of(50, rows as int)
            &&& k > 10 ==> window.width == lower_of(5 * k, rows as int)
        },
{
}

proof fn lemma_rows_are_summed(active_rows: int, counts: Seq<u32>)
    ensures
        row_sum(active_rows, counts) == active_rows + sum_of(counts.map_values(|n: u32| n as u64)),
    decreases counts.len(),
{
    let wide = counts.map_values(|n: u32| n as u64);
    if counts.len() > 0 {
        lemma_rows_are_summed(active_rows, counts.drop_last());
        assert(wide.drop_last() =~= counts.drop_last().map_values(|n: u32| n as u64));
    }
}

/// The rows of the corpus are those of the active segment and of every sealed one.
pub proof fn lemma_the_corpus_is_all_rows(
    active_rows: usize,
    counts: &Vec<u32>,
    result: Result<usize, FusionError>,
)
    requires
        call_ensures(corpus_rows, (active_rows, counts), result),
    ensures
        match result {
            Ok(total) => total == active_rows + sum_of(counts@.map_values(|n: u32| n as u64)),
            Err(_) => active_rows + sum_of(counts@.map_values(|n: u32| n as u64)) > usize::MAX,
        },
{
    lemma_rows_are_summed(active_rows as int, counts@);
}

/// A hybrid query starts in its first round: with the whole corpus where it has no
/// rounds, and with its window otherwise. Without a tier of its own and without a graph
/// it is exact.
pub proof fn lemma_a_hybrid_query_starts_with_its_window(
    options: SearchOptions,
    has_graph: bool,
    rows: usize,
    k: usize,
    max_rounds: usize,
    result: Result<HybridSearch, FusionError>,
)
    requires
        call_ensures(HybridSearch::begin, (options, has_graph, rows, k, max_rounds), result),
    ensures
        result is Err <==> max_rounds > 0 && 5 * k > usize::MAX,
        result matches Ok(search) ==> {
            &&& search.rounds == 1 && !search.budget_exhausted
            &&& search.max_rounds == max_rounds && search.corpus_rows == rows
            &&& search.has_graph == has_graph && search.requested_tier == options.tier
            &&& max_rounds == 0 ==> search.width == rows
            &&& max_rounds > 0 && k == 0 ==> search.width == 0
            &&& max_rounds > 0 && 0 < k <= 10 ==> search.width == lower_of(50, rows as int)
            &&& max_rounds > 0 && k > 10 ==> search.width == lower_of(5 * k, rows as int)
            &&& options.tier is Some || has_graph ==> search.options == options
            &&& options.tier is None && !has_graph ==> search.options.tier == Some(
                SearchTier::Exact,
            )
            &&& search.tier_resolution is None <==> options.tier is Some
            &&& search.tier_resolution == Some(HybridTierResolution::Exact) <==> options.tier
                is None && !has_graph
        },
{
}

/// A round asks its vector leg for one row more than its window, so that it sees whether
/// there is more. The tier is the query's own, but for an automatic query whose round is
/// too wide for a traversal, which is exact.
pub proof fn lemma_a_round_asks_for_one_row_more(
    search: &HybridSearch,
    round: VectorRound,
    worth_it: bool,
)
    requires
        call_ensures(HybridSearch::vector_round, (search,), round),
        call_ensures(graph_round_is_worth_it, (round.k, search.corpus_rows), worth_it),
    ensures
        search.width < usize::MAX ==> round.k == search.width + 1,
        search.requested_tier is Some || worth_it ==> round.options == search.options,
        search.requested_tier is None && !worth_it ==> round.options.tier == Some(
            SearchTier::Exact,
        ),
        search.requested_tier is Some || !search.has_graph ==> round.scan_reason is None,
        search.requested_tier is None && search.has_graph ==> {
            &&& round.k > search.corpus_rows ==> round.scan_reason == Some(
                ScanReason::FullMaterialization,
            )
            &&& round.k <= search.corpus_rows && worth_it ==> round.scan_reason is None
            &&& round.k <= search.corpus_rows && !worth_it ==> (round.scan_reason matches Some(
                ScanReason::WideningCap { rows, .. },
            ) && rows == search.corpus_rows)
        },
{
}

/// The lexical leg is asked for one row more than the window too.
pub proof fn lemma_both_legs_ask_for_one_row_more(search: &HybridSearch, k: usize)
    requires
        call_ensures(HybridSearch::producer_width, (search,), k),
    ensures
        search.width < usize::MAX ==> k == search.width + 1,
        search.width == usize::MAX ==> k == search.width,
{
}

/// A hybrid query goes on exactly where its window proves nothing and there are more
/// rows. It doubles its window, within the corpus, and reads the whole corpus once its
/// rounds are spent.
pub proof fn lemma_a_hybrid_query_widens_until_it_is_proven(
    search: &mut HybridSearch,
    termination: FusionTermination,
    step: HybridStep,
)
    requires
        call_ensures(HybridSearch::accept_round, (search, termination), step),
    ensures
        step == HybridStep::Again <==> termination == FusionTermination::WindowUnproven && old(
            search,
        ).width < old(search).corpus_rows,
        step == HybridStep::Done ==> *final(search) == *old(search),
        step == HybridStep::Again ==> {
            let (before, after) = (*old(search), *final(search));
            &&& before.rounds >= before.max_rounds ==> after.width == before.corpus_rows
                && after.budget_exhausted
            &&& before.rounds < before.max_rounds ==> after.width == lower_of(
                2 * before.width,
                before.corpus_rows as int,
            ) && after.budget_exhausted == before.budget_exhausted
            &&& before.rounds < usize::MAX ==> after.rounds == before.rounds + 1
            &&& after.options == before.options && after.requested_tier == before.requested_tier
            &&& after.corpus_rows == before.corpus_rows && after.max_rounds == before.max_rounds
            &&& after.has_graph == before.has_graph
        },
{
}

/// A query reports its rounds, and the whole corpus where they were spent.
pub proof fn lemma_a_spent_budget_is_reported(
    search: &HybridSearch,
    fused: FusionReport,
    report: FusionReport,
)
    requires
        call_ensures(HybridSearch::finish, (search, fused), report),
    ensures
        report.rounds == search.rounds,
        search.budget_exhausted ==> report.budget_exhausted && report.termination
            == FusionTermination::BudgetFullMaterialization,
        !search.budget_exhausted ==> report.termination == fused.termination
            && report.budget_exhausted == fused.budget_exhausted,
{
}

/// A list is exhausted exactly where it holds no more than the window; the vector list
/// is approximate where rows may be missing or scores are estimates.
pub proof fn lemma_a_round_says_where_its_lists_end(
    flags: VectorDiagnosticsFlags,
    vector_len: usize,
    lexical_len: usize,
    width: usize,
    provenance: HybridProvenance,
)
    requires
        call_ensures(round_provenance, (flags, vector_len, lexical_len, width), provenance),
    ensures
        provenance.vector_precision == ScorePrecision::Exact <==> flags.exact_rescore,
        provenance.vector_coverage == CandidateCoverage::Approximate <==> flags.approximate
            || !flags.exact_rescore,
        provenance.vector_coverage == CandidateCoverage::Exhaustive ==> vector_len <= width,
        provenance.vector_coverage == CandidateCoverage::CertifiedBounded ==> vector_len > width,
        provenance.lexical_coverage == CandidateCoverage::Exhaustive <==> lexical_len <= width,
        provenance.lexical_coverage == CandidateCoverage::CertifiedBounded <==> lexical_len
            > width,
{
}

/// A round hands on the fused hits as they are. It keeps the fusion's verdict only where
/// both lists are bounded, scores exact and crossed scores complete; it is never more
/// certain than the fusion was.
pub proof fn lemma_a_round_is_never_more_certain(
    fusion: UnionFusion,
    provenance: HybridProvenance,
    require_exact: bool,
    observer: &mut HybridScoreObserver,
    result: Result<FusionOutcome, FusionError>,
)
    requires
        call_ensures(fuse_round, (fusion, provenance, require_exact, observer), result),
    ensures
        fusion.outcome matches Err(error) ==> result == Err::<FusionOutcome, FusionError>(error),
        fusion.outcome matches Ok(fused) ==> (result matches Ok(outcome) && {
            let bounded = provenance.vector_coverage != CandidateCoverage::Approximate
                && provenance.lexical_coverage != CandidateCoverage::Approximate;
            let exact = provenance.vector_precision == ScorePrecision::Exact
                && provenance.cross_scores_complete;
            &&& outcome.hits@ == fused.hits@
            &&& outcome.report.rounds == fused.report.rounds
            &&& outcome.report.budget_exhausted == fused.report.budget_exhausted
            &&& bounded && exact ==> outcome.report.termination == fused.report.termination
            &&& !bounded ==> outcome.report.termination == FusionTermination::ApproximateCandidates
            &&& bounded && !exact && require_exact ==> outcome.report.termination
                == FusionTermination::WindowUnproven
            &&& bounded && !exact && !require_exact ==> outcome.report.termination
                == FusionTermination::ApproximateCandidates
        }),
{
}

/// The work of a round is added to the work so far, value by value and byte by byte.
pub proof fn lemma_a_round_adds_its_work(
    work: &mut HybridWork,
    scan: &ScanStats,
    graph: GraphSearchStats,
    lexical: SearchCounters,
    result: Result<(), QueryError>,
)
    requires
        call_ensures(HybridWork::complete_round, (work, scan, graph, lexical), result),
        result is Ok,
    ensures
        final(work).scan.dims_touched == old(work).scan.dims_touched + scan.dims_touched,
        final(work).scan.bytes_read == old(work).scan.bytes_read + scan.bytes_read,
        final(work).scan.threads_used == final(work).scan.worker_thread_ids@.len(),
        final(work).plans == old(work).plans,
        ({
            let (before, after) = (old(work).graph, final(work).graph);
            &&& after.segments_traversed == before.segments_traversed + graph.segments_traversed
            &&& after.graph_validations == before.graph_validations + graph.graph_validations
            &&& after.candidates_scored == before.candidates_scored + graph.candidates_scored
            &&& after.candidates_rescored == before.candidates_rescored
                + graph.candidates_rescored
            &&& after.segments_pruned_by_bound == before.segments_pruned_by_bound
                + graph.segments_pruned_by_bound
            &&& after.entry_seed_discoveries == before.entry_seed_discoveries
                + graph.entry_seed_discoveries
            &&& after.visited_epoch_clears == before.visited_epoch_clears
                + graph.visited_epoch_clears
        }),
        old(work).lexical.docs_evaluated + lexical.docs_evaluated <= u64::MAX ==> final(work).lexical.docs_evaluated == old(work).lexical.docs_evaluated + lexical.docs_evaluated,
        old(work).lexical.postings_decoded + lexical.postings_decoded <= u64::MAX ==> final(work).lexical.postings_decoded == old(work).lexical.postings_decoded
            + lexical.postings_decoded,
        old(work).lexical.blocks_decoded + lexical.blocks_decoded <= u64::MAX ==> final(work).lexical.blocks_decoded == old(work).lexical.blocks_decoded + lexical.blocks_decoded,
        old(work).lexical.blocks_skipped + lexical.blocks_skipped <= u64::MAX ==> final(work).lexical.blocks_skipped == old(work).lexical.blocks_skipped + lexical.blocks_skipped,
{
}

/// The distances that a round computed across its windows are added as work: each reads
/// the values of one row, four bytes a value.
pub proof fn lemma_a_fill_adds_its_work(
    work: &mut HybridWork,
    round: &HybridRound,
    dimension: usize,
    result: Result<(), QueryError>,
)
    requires
        call_ensures(HybridWork::complete_fill, (work, round, dimension), result),
    ensures
        result is Ok ==> {
            let values = round.vector_scores_computed * dimension;
            &&& final(work).scan.dims_touched == old(work).scan.dims_touched + values
            &&& final(work).scan.bytes_read == old(work).scan.bytes_read + 4 * values
            &&& final(work).graph == old(work).graph
            &&& final(work).scan.worker_thread_ids == old(work).scan.worker_thread_ids
        },
        result is Err ==> *final(work) == *old(work),
{
}

/// A query vector is accepted where it has values, no more than the maximum, and all of
/// them are finite.
pub proof fn lemma_a_finite_vector_is_accepted(
    query: &Vec<Score>,
    maximum: usize,
    result: Result<(), QueryError>,
)
    requires
        call_ensures(validate_query, (query, maximum), result),
    ensures
        result is Ok <==> 0 < query@.len() <= maximum && forall|i: int|
            0 <= i < query@.len() ==> (#[trigger] query@[i]).spec_is_finite(),
{
}

/// A scan's shape is accepted where its values are its rows times its dimension.
pub proof fn lemma_a_scan_has_whole_rows(
    dimension: usize,
    row_count: usize,
    values: usize,
    result: Result<(), QueryError>,
)
    requires
        call_ensures(check_scan_shape, (dimension, row_count, values), result),
    ensures
        result is Ok <==> dimension > 0 && row_count * dimension == values,
{
}

/// Workers are joined without repeats: each of either list is there, and those that were
/// listed stay in front.
pub proof fn lemma_workers_are_joined(ids: &mut Vec<u64>, more: &Vec<u64>)
    requires
        call_ensures(add_workers, (ids, more), ()),
    ensures
        forall|id: u64| #[trigger]
            final(ids)@.contains(id) <==> old(ids)@.contains(id) || more@.contains(id),
        final(ids)@.len() >= old(ids)@.len(),
        final(ids)@.take(old(ids)@.len() as int) == old(ids)@,
        old(ids)@.no_duplicates() ==> final(ids)@.no_duplicates(),
{
    lemma_union_members(old(ids)@, more@);
    lemma_union_keeps_its_front(old(ids)@, more@);
}

proof fn lemma_union_keeps_its_front(ids: Seq<u64>, more: Seq<u64>)
    ensures
        distinct_union(ids, more).len() >= ids.len(),
        distinct_union(ids, more).take(ids.len() as int) == ids,
        ids.no_duplicates() ==> distinct_union(ids, more).no_duplicates(),
    decreases more.len(),
{
    if more.len() > 0 {
        lemma_union_keeps_its_front(ids, more.drop_last());
        let before = distinct_union(ids, more.drop_last());
        assert(before.push(more.last()).take(ids.len() as int) == before.take(ids.len() as int));
    } else {
        assert(ids.take(ids.len() as int) == ids);
    }
}

/// A scheduled fault of a leg fires once, for its own leg.
pub proof fn lemma_a_scheduled_fault_fires_once(
    fault: &mut Option<HybridLegTestFault>,
    later: &mut Option<HybridLegTestFault>,
    leg: FusionLeg,
    fires: bool,
    again: bool,
)
    requires
        call_ensures(consume_hybrid_test_fault, (fault, leg), fires),
        *old(later) == *final(fault),
        call_ensures(consume_hybrid_test_fault, (later, leg), again),
    ensures
        !again,
        fires <==> *old(fault) == Some(HybridLegTestFault::Panic(leg)),
        !fires ==> *final(fault) == *old(fault),
{
}

} // verus!
