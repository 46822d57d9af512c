//! Traversal of one segment's graph: how many candidates to ask for, when the
//! segment's bound rules it out, and how to widen past deleted rows.

use crate::candidates::GraphSearchStats;
use crate::control::CancelToken;
use crate::control::QueryCancellation;
use crate::control::QueryControl;
use crate::error::overflow_error;
use crate::error::AdaptiveEfError;
use crate::error::Geometry;
use crate::error::GraphSearchError;
use crate::error::QueryError;
use crate::error::ScanError;
use crate::ids::RowSource;
use crate::options::GraphSearchOptions;
use crate::plan::PlanChoice;
use crate::plan::SegmentPlan;
use crate::plan::SegmentTier;
use crate::score::Double;
use crate::score::Score;
use crate::search::count_live;
use crate::search::live_hits;
use crate::search::GraphHit;
use crate::search::SegmentGraphResult;
use crate::structured::numeric;
use crate::structured::numeric_below;
use vstd::prelude::*;

verus! {

/// Facts of a segment's graph and its deleted rows.
#[derive(Clone, Copy, Debug, PartialEq, Eq, Structural)]
pub struct GraphFacts {
    pub source: RowSource,
    pub node_count: u32,
    pub live_count: u64,
    pub tombstone_count: u64,
}

/// One request to the graph searcher.
#[derive(Clone, Copy, Debug, PartialEq, Eq, Structural)]
pub struct GraphRequest {
    pub candidate_k: usize,
    /// Explicit traversal width; adaptive where there is none.
    pub ef: Option<usize>,
}

/// How many candidates a traversal asks for.
#[derive(Clone, Copy, Debug, PartialEq, Eq, Structural)]
pub struct TraversalPlan {
    /// Candidates of the first round.
    pub segment_k: usize,
    /// Live rows that end the traversal.
    pub target_live_k: usize,
    /// Candidates of the widest round.
    pub maximum_candidate_k: usize,
    pub has_tombstones: bool,
}

/// The smaller of two numbers.
pub open spec fn smaller(left: nat, right: nat) -> nat {
    if left <= right {
        left
    } else {
        right
    }
}

/// The plan for `k` results: without deleted rows one round of at most every
/// node; with them, enough candidates to replace every deleted row.
pub open spec fn planned(facts: GraphFacts, k: nat) -> (nat, nat, nat) {
    let segment_k = smaller(k, facts.node_count as nat);
    if facts.tombstone_count == 0 {
        (segment_k, segment_k, segment_k)
    } else {
        let target = smaller(facts.live_count as nat, k);
        let wide = smaller(target + facts.tombstone_count as nat, facts.node_count as nat);
        (
            segment_k,
            target,
            if wide < segment_k {
                segment_k
            } else {
                wide
            },
        )
    }
}

/// The failure of a plan, if there is one.
pub open spec fn plan_failure(
    facts: GraphFacts,
    options: GraphSearchOptions,
    k: nat,
) -> Option<QueryError> {
    let segment_k = smaller(k, facts.node_count as nat);
    if facts.tombstone_count > 0 && (facts.live_count > usize::MAX || facts.tombstone_count
        > usize::MAX || smaller(facts.live_count as nat, k) + facts.tombstone_count > usize::MAX) {
        Some(overflow_error())
    } else if options.ef is Some && options.ef->0 < segment_k {
        Some(
            QueryError::Graph(
                GraphSearchError::AdaptiveEf(
                    AdaptiveEfError::ExplicitBelowK { k: segment_k as usize, ef: options.ef->0 },
                ),
            ),
        )
    } else {
        None
    }
}

/// Plans the rounds of one traversal; an explicit width below the first round's
/// candidates is refused.
pub fn plan_traversal(facts: &GraphFacts, options: &GraphSearchOptions, k: usize) -> (result: Result<
    TraversalPlan,
    QueryError,
>)
    ensures
        match plan_failure(*facts, *options, k as nat) {
            Some(error) => result == Err::<TraversalPlan, QueryError>(error),
            None => result matches Ok(plan) && {
                let wanted = planned(*facts, k as nat);
                &&& plan.segment_k == wanted.0
                &&& plan.target_live_k == wanted.1
                &&& plan.maximum_candidate_k == wanted.2
                &&& plan.has_tombstones == (facts.tombstone_count > 0)
            },
        },
{
    let node_count: usize = facts.node_count as usize;
    let segment_k: usize = if k <= node_count {
        k
    } else {
        node_count
    };
    let has_tombstones = facts.tombstone_count != 0;
    let mut target_live_k: usize = segment_k;
    let mut maximum_candidate_k: usize = segment_k;
    if has_tombstones {
        if facts.live_count > usize::MAX as u64 {
            return Err(QueryError::Scan(ScanError::ArithmeticOverflow));
        }
        let live: usize = facts.live_count as usize;
        target_live_k =
        if live <= k {
            live
        } else {
            k
        };
        if facts.tombstone_count > usize::MAX as u64 {
            return Err(QueryError::Scan(ScanError::ArithmeticOverflow));
        }
        let wide: usize = match target_live_k.checked_add(facts.tombstone_count as usize) {
            Some(sum) => sum,
            None => {
                return Err(QueryError::Scan(ScanError::ArithmeticOverflow));
            },
        };
        let capped: usize = if wide <= node_count {
            wide
        } else {
            node_count
        };
        maximum_candidate_k =
        if capped < segment_k {
            segment_k
        } else {
            capped
        };
    }
    if let Some(ef) = options.ef {
        if ef < segment_k {
            return Err(
                QueryError::Graph(
                    GraphSearchError::AdaptiveEf(
                        AdaptiveEfError::ExplicitBelowK { k: segment_k, ef },
                    ),
                ),
            );
        }
    }
    Ok(TraversalPlan { segment_k, target_live_k, maximum_candidate_k, has_tombstones })
}

/// The request for a number of candidates. An explicit width governs the
/// caller's live window, so it grows with the candidates that replace deleted
/// rows.
pub open spec fn request_of(options: GraphSearchOptions, candidate_k: usize) -> GraphRequest {
    GraphRequest {
        candidate_k,
        ef: match options.ef {
            None => None,
            Some(ef) => Some(
                if ef < candidate_k {
                    candidate_k
                } else {
                    ef
                },
            ),
        },
    }
}

/// The request for a number of candidates.
pub fn request_for(options: &GraphSearchOptions, candidate_k: usize) -> (request: GraphRequest)
    ensures
        request == request_of(*options, candidate_k),
{
    GraphRequest {
        candidate_k,
        ef: match options.ef {
            None => None,
            Some(ef) => Some(
                if ef < candidate_k {
                    candidate_k
                } else {
                    ef
                },
            ),
        },
    }
}

impl TraversalPlan {
    /// The request whose width the scratch has to hold: the widest one where
    /// the traversal may widen.
    pub open spec fn spec_scratch_request(self, options: GraphSearchOptions) -> GraphRequest {
        if self.has_tombstones && self.maximum_candidate_k > self.segment_k {
            request_of(options, self.maximum_candidate_k)
        } else {
            request_of(options, self.segment_k)
        }
    }

    /// The request whose width the scratch has to hold.
    pub fn scratch_request(&self, options: &GraphSearchOptions) -> (request: GraphRequest)
        ensures
            request == self.spec_scratch_request(*options),
    {
        if self.has_tombstones && self.maximum_candidate_k > self.segment_k {
            request_for(options, self.maximum_candidate_k)
        } else {
            request_for(options, self.segment_k)
        }
    }
}

/// Bounds on the squared distance between a query and any row of a segment.
#[derive(Clone, Copy, Debug, PartialEq, Eq, Structural)]
pub struct DistanceBounds {
    pub upper: Double,
    /// In single precision.
    pub lower: Score,
}

/// The largest single-precision number, in double precision.
pub const LARGEST_SINGLE_BITS: u64 = 0x47ef_ffff_e000_0000;

/// Numeric position of a score; both zeros share one place.
pub open spec fn score_position(score: Score) -> int {
    if score.bits < 0x8000_0000 {
        score.bits as int
    } else {
        0x8000_0000 - score.bits
    }
}

/// Whether an encoding stands for no number.
pub open spec fn is_not_a_number(score: Score) -> bool {
    score.bits % 0x8000_0000 > 0x7f80_0000
}

/// Whether a segment's bounds rule it out: its distances stay within single
/// precision and the smallest is above the distance to beat.
pub open spec fn rules_out(bounds: Option<DistanceBounds>, competitive: Option<Score>) -> bool {
    match (bounds, competitive) {
        (Some(bounds), Some(distance)) => {
            &&& bounds.upper.bits % 0x8000_0000_0000_0000 <= 0x7ff0_0000_0000_0000
            &&& numeric(bounds.upper) <= LARGEST_SINGLE_BITS
            &&& !is_not_a_number(bounds.lower) && !is_not_a_number(distance)
            &&& score_position(bounds.lower) > score_position(distance)
        },
        _ => false,
    }
}

fn score_above(left: Score, right: Score) -> (result: bool)
    ensures
        result == (score_position(left) > score_position(right)),
{
    if left.bits < 0x8000_0000 {
        if right.bits < 0x8000_0000 {
            left.bits > right.bits
        } else {
            left.bits > 0 || right.bits > 0x8000_0000
        }
    } else if right.bits < 0x8000_0000 {
        false
    } else {
        left.bits < right.bits
    }
}

/// Whether a segment's bounds rule it out.
pub fn segment_is_pruned(bounds: Option<DistanceBounds>, competitive: Option<Score>) -> (result:
    bool)
    ensures
        result == rules_out(bounds, competitive),
{
    match (bounds, competitive) {
        (Some(bounds), Some(distance)) => {
            if bounds.upper.bits % 0x8000_0000_0000_0000 > 0x7ff0_0000_0000_0000 {
                return false;
            }
            let largest = Double { bits: LARGEST_SINGLE_BITS };
            if numeric_below(largest, bounds.upper) {
                return false;
            }
            if bounds.lower.bits % 0x8000_0000 > 0x7f80_0000 || distance.bits % 0x8000_0000
                > 0x7f80_0000 {
                return false;
            }
            score_above(bounds.lower, distance)
        },
        _ => false,
    }
}

/// Facts of the preparation that every outcome reports.
#[derive(Clone, Copy, Debug, PartialEq, Eq, Structural)]
pub struct PreparationFacts {
    pub graph_validated: bool,
    pub entry_seed_discovered: bool,
}

/// One as a count.
pub open spec fn counted(happened: bool) -> usize {
    if happened {
        1
    } else {
        0
    }
}

fn count(happened: bool) -> (n: usize)
    ensures
        n == counted(happened),
{
    if happened {
        1
    } else {
        0
    }
}

/// The token that a traversal cancels once it has made enough hops, where its
/// options ask for that: only a query that carries a token can be asked.
pub fn hop_cancellation(options: &GraphSearchOptions, cancellation: &QueryCancellation) -> (result:
    Result<Option<(usize, CancelToken)>, QueryError>)
    ensures
        result == match options.cancel_after_hops {
            None => Ok(None),
            Some(hops) => match cancellation.control {
                QueryControl::Cancel(token) => Ok(Some((hops, token))),
                QueryControl::Deadline(_) => Err(
                    QueryError::Graph(
                        GraphSearchError::Geometry(Geometry::HopCancellationWithoutToken),
                    ),
                ),
            },
        },
{
    match options.cancel_after_hops {
        None => Ok(None),
        Some(hops) => match cancellation.cancel_token_for_test() {
            Some(token) => Ok(Some((hops, token))),
            None => Err(
                QueryError::Graph(
                    GraphSearchError::Geometry(Geometry::HopCancellationWithoutToken),
                ),
            ),
        },
    }
}

/// The outcome of a segment that its bound ruled out.
pub fn pruned_result(facts: &GraphFacts, prepared: &PreparationFacts) -> (result:
    SegmentGraphResult)
    ensures
        result == (SegmentGraphResult::Pruned {
            plan: SegmentPlan {
                source: facts.source,
                tier: SegmentTier::SealedGraph,
                live_rows: facts.live_count,
                choice: PlanChoice::Pruned,
            },
            graph_stats: GraphSearchStats {
                graph_validations: counted(prepared.graph_validated),
                entry_seed_discoveries: counted(prepared.entry_seed_discovered),
                segments_pruned_by_bound: 1,
                ..GraphSearchStats::spec_zero()
            },
        }),
{
    let mut graph_stats = GraphSearchStats::zero();
    graph_stats.graph_validations = count(prepared.graph_validated);
    graph_stats.entry_seed_discoveries = count(prepared.entry_seed_discovered);
    graph_stats.segments_pruned_by_bound = 1;
    SegmentGraphResult::Pruned {
        plan: SegmentPlan::unfiltered_pruned(facts.source, facts.live_count),
        graph_stats,
    }
}

/// Work counters of one round.
#[derive(Clone, Copy, Debug, PartialEq, Eq, Structural)]
pub struct RoundCounters {
    pub dims_touched: u64,
    pub bytes_read: u64,
    pub visited_epoch_cleared: bool,
    pub candidates_scored: usize,
    pub candidates_rescored: usize,
}

/// Work of all rounds so far.
#[derive(Clone, Copy, Debug, PartialEq, Eq, Structural)]
pub struct TraversalWork {
    pub dims_touched: u64,
    pub bytes_read: u64,
    pub epoch_clears: usize,
    pub candidates_scored: usize,
    pub candidates_rescored: usize,
}

impl TraversalWork {
    /// No work.
    pub open spec fn none() -> TraversalWork {
        TraversalWork {
            dims_touched: 0,
            bytes_read: 0,
            epoch_clears: 0,
            candidates_scored: 0,
            candidates_rescored: 0,
        }
    }

    /// Whether one more round's work can be added.
    pub open spec fn fits(self, round: RoundCounters) -> bool {
        &&& self.dims_touched + round.dims_touched <= u64::MAX
        &&& self.bytes_read + round.bytes_read <= u64::MAX
        &&& self.epoch_clears + counted(round.visited_epoch_cleared) <= usize::MAX
        &&& self.candidates_scored + round.candidates_scored <= usize::MAX
        &&& self.candidates_rescored + round.candidates_rescored <= usize::MAX
    }

    /// The work with one more round.
    pub open spec fn plus(self, round: RoundCounters) -> TraversalWork {
        TraversalWork {
            dims_touched: (self.dims_touched + round.dims_touched) as u64,
            bytes_read: (self.bytes_read + round.bytes_read) as u64,
            epoch_clears: (self.epoch_clears + counted(round.visited_epoch_cleared)) as usize,
            candidates_scored: (self.candidates_scored + round.candidates_scored) as usize,
            candidates_rescored: (self.candidates_rescored + round.candidates_rescored) as usize,
        }
    }
}

/// A traversal between two rounds.
#[derive(Clone, Copy, Debug, PartialEq, Eq, Structural)]
pub struct GraphTraversal {
    pub plan: TraversalPlan,
    pub options: GraphSearchOptions,
    pub candidate_k: usize,
    pub work: TraversalWork,
}

/// What follows a round.
#[derive(Clone, Copy, Debug, PartialEq, Eq, Structural)]
pub enum TraversalStep {
    /// The round's result stands.
    Done,
    /// Search again with a wider request.
    Widen(GraphRequest),
}

/// The candidates of the next round: twice as many, at least one more, at most
/// the widest round's.
pub open spec fn widened(candidate_k: nat, maximum: nat) -> nat {
    let double = if 2 * candidate_k > usize::MAX {
        usize::MAX as nat
    } else {
        2 * candidate_k
    };
    let more = if candidate_k + 1 > usize::MAX {
        usize::MAX as nat
    } else {
        candidate_k + 1
    };
    smaller(
        if double < more {
            more
        } else {
            double
        },
        maximum,
    )
}

/// What a round whose result keeps `retained` live rows leads to.
pub open spec fn step_of(
    traversal: GraphTraversal,
    counters: RoundCounters,
    retained: nat,
) -> Result<TraversalStep, QueryError> {
    let plan = traversal.plan;
    if !traversal.work.fits(counters) {
        Err(overflow_error())
    } else if !plan.has_tombstones || retained >= plan.target_live_k {
        Ok(TraversalStep::Done)
    } else if traversal.candidate_k >= plan.maximum_candidate_k {
        Err(
            QueryError::Graph(
                GraphSearchError::Geometry(
                    Geometry::TraversalExhausted {
                        candidates: traversal.candidate_k,
                        retained: retained as usize,
                        expected: plan.target_live_k,
                    },
                ),
            ),
        )
    } else {
        Ok(
            TraversalStep::Widen(
                request_of(
                    traversal.options,
                    widened(
                        traversal.candidate_k as nat,
                        plan.maximum_candidate_k as nat,
                    ) as usize,
                ),
            ),
        )
    }
}

impl GraphTraversal {
    /// The traversal behind a round.
    pub open spec fn after(self, counters: RoundCounters, step: TraversalStep) -> GraphTraversal {
        GraphTraversal {
            candidate_k: match step {
                TraversalStep::Done => self.candidate_k,
                TraversalStep::Widen(request) => request.candidate_k,
            },
            work: self.work.plus(counters),
            ..self
        }
    }

    /// Starts a traversal with its first request.
    pub fn start(plan: TraversalPlan, options: GraphSearchOptions) -> (traversal: GraphTraversal)
        ensures
            traversal == (GraphTraversal {
                plan,
                options,
                candidate_k: plan.segment_k,
                work: TraversalWork::none(),
            }),
    {
        GraphTraversal {
            plan,
            options,
            candidate_k: plan.segment_k,
            work: TraversalWork {
                dims_touched: 0,
                bytes_read: 0,
                epoch_clears: 0,
                candidates_scored: 0,
                candidates_rescored: 0,
            },
        }
    }

    /// The request of the round that is due.
    pub fn request(&self) -> (request: GraphRequest)
        ensures
            request == request_of(self.options, self.candidate_k),
    {
        request_for(&self.options, self.candidate_k)
    }

    /// Takes one round's result: adds its work and decides whether it stands,
    /// whether to widen, or that the segment cannot give its live rows. On a
    /// failure the traversal is unchanged.
    pub fn accept_round(
        &mut self,
        counters: &RoundCounters,
        hits: &Vec<GraphHit>,
        alive: &Vec<bool>,
    ) -> (result: Result<TraversalStep, QueryError>)
        ensures
            result == step_of(*old(self), *counters, live_hits(hits@, alive@).len()),
            match result {
                Ok(step) => *final(self) == old(self).after(*counters, step),
                Err(_) => *final(self) == *old(self),
            },
    {
        let dims_touched: u64 = match self.work.dims_touched.checked_add(counters.dims_touched) {
            Some(sum) => sum,
            None => {
                return Err(QueryError::Scan(ScanError::ArithmeticOverflow));
            },
        };
        let bytes_read: u64 = match self.work.bytes_read.checked_add(counters.bytes_read) {
            Some(sum) => sum,
            None => {
                return Err(QueryError::Scan(ScanError::ArithmeticOverflow));
            },
        };
        let epoch_clears: usize = match self.work.epoch_clears.checked_add(
            count(counters.visited_epoch_cleared),
        ) {
            Some(sum) => sum,
            None => {
                return Err(QueryError::Scan(ScanError::ArithmeticOverflow));
            },
        };
        let candidates_scored: usize = match self.work.candidates_scored.checked_add(
            counters.candidates_scored,
        ) {
            Some(sum) => sum,
            None => {
                return Err(QueryError::Scan(ScanError::ArithmeticOverflow));
            },
        };
        let candidates_rescored: usize = match self.work.candidates_rescored.checked_add(
            counters.candidates_rescored,
        ) {
            Some(sum) => sum,
            None => {
                return Err(QueryError::Scan(ScanError::ArithmeticOverflow));
            },
        };
        let work = TraversalWork {
            dims_touched,
            bytes_read,
            epoch_clears,
            candidates_scored,
            candidates_rescored,
        };
        if !self.plan.has_tombstones {
            self.work = work;
            return Ok(TraversalStep::Done);
        }
        let retained: usize = count_live(hits, alive);
        if retained >= self.plan.target_live_k {
            self.work = work;
            return Ok(TraversalStep::Done);
        }
        let maximum: usize = self.plan.maximum_candidate_k;
        if self.candidate_k >= maximum {
            return Err(
                QueryError::Graph(
                    GraphSearchError::Geometry(
                        Geometry::TraversalExhausted {
                            candidates: self.candidate_k,
                            retained,
                            expected: self.plan.target_live_k,
                        },
                    ),
                ),
            );
        }
        let double: usize = match self.candidate_k.checked_mul(2) {
            Some(product) => product,
            None => usize::MAX,
        };
        let more: usize = self.candidate_k.saturating_add(1);
        let wide: usize = if double < more {
            more
        } else {
            double
        };
        let wider: usize = if wide <= maximum {
            wide
        } else {
            maximum
        };
        self.work = work;
        self.candidate_k = wider;
        Ok(TraversalStep::Widen(request_for(&self.options, wider)))
    }

    /// The outcome of a traversal whose last round stands.
    pub fn finish(
        &self,
        facts: &GraphFacts,
        prepared: &PreparationFacts,
        hits: Vec<GraphHit>,
        effective_ef: usize,
        caller_thread: u64,
    ) -> (result: SegmentGraphResult)
        ensures
            result == (SegmentGraphResult::Traversed {
                hits,
                plan: SegmentPlan {
                    source: facts.source,
                    tier: SegmentTier::SealedGraph,
                    live_rows: facts.live_count,
                    choice: PlanChoice::Graph {
                        requested_ef: self.options.ef,
                        effective_ef,
                        profile: self.options.profile,
                    },
                },
                dims_touched: self.work.dims_touched,
                bytes_read: self.work.bytes_read,
                caller_thread,
                graph_stats: GraphSearchStats {
                    segments_traversed: 1,
                    graph_validations: counted(prepared.graph_validated),
                    entry_seed_discoveries: counted(prepared.entry_seed_discovered),
                    visited_epoch_clears: self.work.epoch_clears,
                    candidates_scored: self.work.candidates_scored,
                    candidates_rescored: self.work.candidates_rescored,
                    segments_pruned_by_bound: 0,
                },
            }),
    {
        SegmentGraphResult::Traversed {
            hits,
            plan: SegmentPlan::unfiltered_graph(
                facts.source,
                facts.live_count,
                self.options.ef,
                effective_ef,
                self.options.profile,
            ),
            dims_touched: self.work.dims_touched,
            bytes_read: self.work.bytes_read,
            caller_thread,
            graph_stats: GraphSearchStats {
                segments_traversed: 1,
                graph_validations: count(prepared.graph_validated),
                entry_seed_discoveries: count(prepared.entry_seed_discovered),
                visited_epoch_clears: self.work.epoch_clears,
                candidates_scored: self.work.candidates_scored,
                candidates_rescored: self.work.candidates_rescored,
                segments_pruned_by_bound: 0,
            },
        }
    }
}

/// Widening always makes progress and ends: each round asks for strictly more
/// candidates, and never for more than the plan allows.
pub proof fn lemma_widening_makes_progress(
    traversal: GraphTraversal,
    counters: RoundCounters,
    retained: nat,
)
    ensures
        step_of(traversal, counters, retained) matches Ok(TraversalStep::Widen(request))
            ==> traversal.candidate_k < request.candidate_k
            <= traversal.plan.maximum_candidate_k,
{
}

/// A traversal that ends well has its live rows: all of them, or as many as were
/// asked for.
pub proof fn lemma_done_retains_the_target(
    traversal: GraphTraversal,
    counters: RoundCounters,
    retained: nat,
)
    requires
        step_of(traversal, counters, retained) == Ok::<TraversalStep, QueryError>(
            TraversalStep::Done,
        ),
        traversal.plan.has_tombstones,
    ensures
        retained >= traversal.plan.target_live_k,
{
}

/// The widest round can replace every deleted row: it asks for the target plus
/// one candidate per deleted row, or for every node.
pub proof fn lemma_widest_round_suffices(facts: GraphFacts, k: nat)
    requires
        facts.tombstone_count > 0,
    ensures
        planned(facts, k).2 >= planned(facts, k).1 + facts.tombstone_count || planned(facts, k).2
            >= facts.node_count,
        planned(facts, k).0 <= planned(facts, k).2 <= facts.node_count,
{
}

} // verus!
