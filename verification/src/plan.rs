//! What a query did with each row source, and why.

use crate::corpus::SegmentFacts;
use crate::ids::RowSource;
use crate::options::GraphSearchProfile;
use crate::options::SearchTier;
use vstd::prelude::*;

verus! {

/// How a row source is stored.
#[derive(Clone, Copy, Debug, PartialEq, Eq, Structural)]
pub enum SegmentTier {
    ActiveScan,
    SealedScan,
    SealedGraph,
}

/// A scan tier that the caller selected.
#[derive(Clone, Copy, Debug, PartialEq, Eq, Structural)]
pub enum ExplicitScanTier {
    Exact,
    Scan,
}

/// Why a row source was scanned.
#[derive(Clone, Copy, Debug, PartialEq, Eq, Structural)]
pub enum ScanReason {
    /// The active segment is always scanned.
    ActiveSegment,
    /// The caller selected a scan tier.
    ExplicitTier(ExplicitScanTier),
    /// The segment has too few rows for a graph.
    BelowGraphThreshold { rows: u32, min_rows: u32 },
    /// The segment's graph is not built yet.
    GraphPending,
    /// A hybrid round asked for every row.
    FullMaterialization,
    /// A hybrid round would traverse most of the corpus.
    WideningCap { ef: usize, rows: usize },
}

/// What was done with one row source.
#[derive(Clone, Copy, Debug, PartialEq, Eq, Structural)]
pub enum PlanChoice {
    /// Every row was scored.
    Scan(ScanReason),
    /// No row could be among the best, so none was scored.
    Pruned,
    /// The graph was traversed.
    Graph { requested_ef: Option<usize>, effective_ef: usize, profile: GraphSearchProfile },
}

/// The record of one row source.
#[derive(Clone, Copy, Debug, PartialEq, Eq, Structural)]
pub struct SegmentPlan {
    pub source: RowSource,
    pub tier: SegmentTier,
    pub live_rows: u64,
    pub choice: PlanChoice,
}

impl SegmentPlan {
    /// Whether rows may have been missed: only a traversal may miss some.
    pub open spec fn spec_approximate(self) -> bool {
        self.choice is Graph
    }

    /// Whether rows may have been missed.
    pub fn approximate(&self) -> (result: bool)
        ensures
            result == self.spec_approximate(),
    {
        match self.choice {
            PlanChoice::Graph { .. } => true,
            _ => false,
        }
    }

    /// The record of an unfiltered scan.
    pub fn unfiltered_scan(
        source: RowSource,
        tier: SegmentTier,
        live_rows: u64,
        reason: ScanReason,
    ) -> (plan: SegmentPlan)
        ensures
            plan == (SegmentPlan { source, tier, live_rows, choice: PlanChoice::Scan(reason) }),
    {
        SegmentPlan { source, tier, live_rows, choice: PlanChoice::Scan(reason) }
    }

    /// The record of a segment that its norm bound ruled out.
    pub fn unfiltered_pruned(source: RowSource, live_rows: u64) -> (plan: SegmentPlan)
        ensures
            plan == (SegmentPlan {
                source,
                tier: SegmentTier::SealedGraph,
                live_rows,
                choice: PlanChoice::Pruned,
            }),
    {
        SegmentPlan {
            source,
            tier: SegmentTier::SealedGraph,
            live_rows,
            choice: PlanChoice::Pruned,
        }
    }

    /// The record of an unfiltered traversal.
    pub fn unfiltered_graph(
        source: RowSource,
        live_rows: u64,
        requested_ef: Option<usize>,
        effective_ef: usize,
        profile: GraphSearchProfile,
    ) -> (plan: SegmentPlan)
        ensures
            plan == (SegmentPlan {
                source,
                tier: SegmentTier::SealedGraph,
                live_rows,
                choice: PlanChoice::Graph { requested_ef, effective_ef, profile },
            }),
    {
        SegmentPlan {
            source,
            tier: SegmentTier::SealedGraph,
            live_rows,
            choice: PlanChoice::Graph { requested_ef, effective_ef, profile },
        }
    }
}

/// Whether any record says that rows may have been missed.
pub open spec fn any_approximate(plans: Seq<SegmentPlan>) -> bool {
    exists|i: int| 0 <= i < plans.len() && (#[trigger] plans[i]).spec_approximate()
}

/// Whether any record says that rows may have been missed.
pub fn plans_are_approximate(plans: &Vec<SegmentPlan>) -> (result: bool)
    ensures
        result == any_approximate(plans@),
{
    let mut at: usize = 0;
    while at < plans.len()
        invariant
            at <= plans@.len(),
            forall|i: int| 0 <= i < at ==> !(#[trigger] plans@[i]).spec_approximate(),
        decreases plans.len() - at,
    {
        if plans[at].approximate() {
            assert(plans@[at as int].spec_approximate());
            return true;
        }
        at = at + 1;
    }
    false
}

/// Why a sealed segment is scanned: a hybrid round's own reason where the
/// segment has a graph, then the caller's tier, then the segment's size.
pub open spec fn scan_reason(
    segment: SegmentFacts,
    min_rows: u32,
    requested_tier: Option<SearchTier>,
    hybrid_reason: Option<ScanReason>,
) -> ScanReason {
    if segment.has_graph && hybrid_reason is Some {
        hybrid_reason->0
    } else if requested_tier == Some(SearchTier::Exact) {
        ScanReason::ExplicitTier(ExplicitScanTier::Exact)
    } else if requested_tier == Some(SearchTier::Scan) {
        ScanReason::ExplicitTier(ExplicitScanTier::Scan)
    } else if segment.row_count < min_rows {
        ScanReason::BelowGraphThreshold { rows: segment.row_count, min_rows }
    } else {
        ScanReason::GraphPending
    }
}

/// Why a sealed segment is scanned. `min_rows` is the row count from which
/// segments of its dimension and scheme get a graph.
pub fn sealed_scan_reason(
    segment: &SegmentFacts,
    min_rows: u32,
    requested_tier: Option<SearchTier>,
    hybrid_reason: Option<ScanReason>,
) -> (reason: ScanReason)
    ensures
        reason == scan_reason(*segment, min_rows, requested_tier, hybrid_reason),
{
    if segment.has_graph {
        if let Some(reason) = hybrid_reason {
            return reason;
        }
    }
    match requested_tier {
        Some(SearchTier::Exact) => {
            return ScanReason::ExplicitTier(ExplicitScanTier::Exact);
        },
        Some(SearchTier::Scan) => {
            return ScanReason::ExplicitTier(ExplicitScanTier::Scan);
        },
        _ => {},
    }
    if segment.row_count < min_rows {
        ScanReason::BelowGraphThreshold { rows: segment.row_count, min_rows }
    } else {
        ScanReason::GraphPending
    }
}

/// A traversal is worth it while it visits at most this share of the corpus.
pub const GRAPH_WIDENING_CAP_NUMERATOR: usize = 1;

/// Denominator of [`GRAPH_WIDENING_CAP_NUMERATOR`].
pub const GRAPH_WIDENING_CAP_DENOMINATOR: usize = 4;

/// Rows that a traversal visits at least.
pub const GRAPH_EF_FLOOR: usize = 140;

/// Rows that a traversal visits for each row asked for.
pub const GRAPH_EF_PER_K: usize = 4;

/// Rows that a round of width `k` visits per segment, capped at the machine's
/// range.
pub open spec fn round_ef(k: nat) -> nat {
    let wide = if GRAPH_EF_PER_K * k > usize::MAX {
        usize::MAX as nat
    } else {
        (GRAPH_EF_PER_K * k) as nat
    };
    if wide < GRAPH_EF_FLOOR {
        GRAPH_EF_FLOOR as nat
    } else {
        wide
    }
}

/// Rows that a round of width `k` visits per segment.
pub fn graph_round_ef(k: usize) -> (ef: usize)
    ensures
        ef == round_ef(k as nat),
{
    let wide: usize = match k.checked_mul(GRAPH_EF_PER_K) {
        Some(wide) => wide,
        None => usize::MAX,
    };
    if wide < GRAPH_EF_FLOOR {
        GRAPH_EF_FLOOR
    } else {
        wide
    }
}

/// Whether a round of width `k` should use the graph.
pub open spec fn round_is_worth_it(k: nat, corpus_rows: nat) -> bool {
    corpus_rows == 0 || round_ef(k) <= corpus_rows * GRAPH_WIDENING_CAP_NUMERATOR
        / GRAPH_WIDENING_CAP_DENOMINATOR as int
}

/// Whether a widening round of width `k` should still use the graph: past its
/// share of the corpus a traversal reads most rows anyway, and a scan is
/// cheaper and exact.
pub fn graph_round_is_worth_it(k: usize, corpus_rows: usize) -> (result: bool)
    ensures
        result == round_is_worth_it(k as nat, corpus_rows as nat),
{
    if corpus_rows == 0 {
        return true;
    }
    let ef: usize = graph_round_ef(k);
    let cap: usize = corpus_rows / GRAPH_WIDENING_CAP_DENOMINATOR;
    ef <= cap
}

/// Widening never brings the graph back: a round that is not worth it stays so
/// for every wider round.
pub proof fn lemma_widening_leaves_the_graph_once(k: nat, wider: nat, corpus_rows: nat)
    requires
        k <= wider,
        !round_is_worth_it(k, corpus_rows),
    ensures
        !round_is_worth_it(wider, corpus_rows),
{
}

/// Whether automatic tiering scores every source in full precision: where a
/// graph is published, or where exact and estimated scores would mix.
pub open spec fn uses_full_precision(segments: Seq<SegmentFacts>, active_rows: nat) -> bool {
    ||| exists|i: int| 0 <= i < segments.len() && (#[trigger] segments[i]).has_graph
    ||| {
        &&& exists|i: int|
            0 <= i < segments.len() && (#[trigger] segments[i]).row_count > 0
                && segments[i].scheme == 0
        &&& active_rows > 0 || exists|i: int|
            0 <= i < segments.len() && (#[trigger] segments[i]).row_count > 0 && (
            segments[i].scheme == 2 || segments[i].scheme == 4)
    }
}

/// Whether automatic tiering scores every source in full precision.
pub fn auto_uses_full_precision(segments: &Vec<SegmentFacts>, active_rows: usize) -> (result: bool)
    ensures
        result == uses_full_precision(segments@, active_rows as nat),
{
    let mut has_exact = false;
    let mut has_estimated = active_rows > 0;
    let mut at: usize = 0;
    while at < segments.len()
        invariant
            at <= segments@.len(),
            forall|i: int| 0 <= i < at ==> !(#[trigger] segments@[i]).has_graph,
            has_exact == (exists|i: int|
                0 <= i < at && (#[trigger] segments@[i]).row_count > 0 && segments@[i].scheme == 0),
            has_estimated == (active_rows > 0 || exists|i: int|
                0 <= i < at && (#[trigger] segments@[i]).row_count > 0 && (segments@[i].scheme == 2
                    || segments@[i].scheme == 4)),
        decreases segments.len() - at,
    {
        let ghost before = at;
        assert(segments@[at as int] == segments[at as int]);
        if segments[at].has_graph {
            return true;
        }
        if segments[at].row_count > 0 {
            if segments[at].scheme == 0 {
                has_exact = true;
            }
            if segments[at].scheme == 2 || segments[at].scheme == 4 {
                has_estimated = true;
            }
        }
        at = at + 1;
    }
    has_exact && has_estimated
}

} // verus!
