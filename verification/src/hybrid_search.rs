//! The rounds of a hybrid query: which tier the vector leg runs at, how wide
//! each round is, and when the query ends.

use crate::candidates::GraphSearchStats;
use crate::candidates::ScanStats;
use crate::candidates::SearchCounters;
use crate::error::QueryError;
use crate::fusion::FusionError;
use crate::fusion::FusionLeg;
use crate::fusion::FusionOutcome;
use crate::fusion::FusionReport;
use crate::fusion::FusionTermination;
use crate::hybrid::hybrid_window;
use crate::hybrid::is_overflow;
use crate::hybrid::window_width;
use crate::hybrid::HYBRID_WINDOW_PER_K;
use crate::hybrid::HybridRoundBuffers;
use crate::hybrid::HybridWork;
use crate::ids::DocId;
use crate::ids::EpochIdentity;
use crate::lexical::LexicalExpansion;
use crate::materialize::MaterializationCounters;
use crate::options::HybridLegTestFault;
use crate::options::SearchOptions;
use crate::options::SearchTier;
use crate::plan::graph_round_ef;
use crate::plan::graph_round_is_worth_it;
use crate::plan::round_ef;
use crate::plan::round_is_worth_it;
use crate::plan::ScanReason;
use crate::plan::SegmentPlan;
use crate::round::HybridRound;
use crate::vector_search::SearchOutcome;
use vstd::prelude::*;

verus! {

/// The tier that a hybrid query without a preference resolved to.
#[derive(Clone, Copy, Debug, PartialEq, Eq, Structural)]
pub enum HybridTierResolution {
    Auto,
    Exact,
}

/// A hybrid query between two rounds.
#[derive(Clone, Copy, Debug, PartialEq, Eq, Structural)]
pub struct HybridSearch {
    pub options: SearchOptions,
    pub requested_tier: Option<SearchTier>,
    pub tier_resolution: Option<HybridTierResolution>,
    /// Some sealed segment has a published graph.
    pub has_graph: bool,
    pub corpus_rows: usize,
    pub max_rounds: usize,
    pub width: usize,
    pub rounds: usize,
    pub budget_exhausted: bool,
}

/// What the vector leg of a round is asked.
#[derive(Clone, Copy, Debug, PartialEq, Eq, Structural)]
pub struct VectorRound {
    pub k: usize,
    pub options: SearchOptions,
    pub scan_reason: Option<ScanReason>,
}

/// What follows a round.
#[derive(Clone, Copy, Debug, PartialEq, Eq, Structural)]
pub enum HybridStep {
    Done,
    Again,
}

/// One more than a width, within the machine's range.
pub open spec fn one_more(width: usize) -> usize {
    if width < usize::MAX {
        (width + 1) as usize
    } else {
        width
    }
}

/// Twice a width, at most the corpus.
pub open spec fn doubled(width: nat, corpus_rows: nat) -> nat {
    if 2 * width < corpus_rows {
        2 * width
    } else {
        corpus_rows
    }
}

impl HybridSearch {
    /// The query as it starts: without a preference and without a graph the
    /// vector leg runs exact, because fusion may only use exactly rescored
    /// scores; a query that may not widen asks for the corpus at once.
    pub open spec fn spec_begin(
        options: SearchOptions,
        has_graph: bool,
        corpus_rows: usize,
        k: usize,
        max_rounds: usize,
    ) -> HybridSearch {
        HybridSearch {
            options: if options.tier is None && !has_graph {
                SearchOptions { tier: Some(SearchTier::Exact), ..options }
            } else {
                options
            },
            requested_tier: options.tier,
            tier_resolution: if options.tier is Some {
                None
            } else if has_graph {
                Some(HybridTierResolution::Auto)
            } else {
                Some(HybridTierResolution::Exact)
            },
            has_graph,
            corpus_rows,
            max_rounds,
            width: if max_rounds == 0 {
                corpus_rows
            } else {
                window_width(k as nat, corpus_rows as nat) as usize
            },
            rounds: 1,
            budget_exhausted: false,
        }
    }

    /// Starts a hybrid query.
    pub fn begin(
        options: SearchOptions,
        has_graph: bool,
        corpus_rows: usize,
        k: usize,
        max_rounds: usize,
    ) -> (result: Result<HybridSearch, FusionError>)
        ensures
            match result {
                Ok(search) => {
                    &&& max_rounds == 0 || HYBRID_WINDOW_PER_K * k <= usize::MAX
                    &&& search == Self::spec_begin(options, has_graph, corpus_rows, k, max_rounds)
                },
                Err(error) => {
                    &&& max_rounds > 0 && HYBRID_WINDOW_PER_K * k > usize::MAX
                    &&& is_overflow(error)
                },
            },
    {
        let requested_tier = options.explicit_tier();
        let mut resolved = options;
        let mut tier_resolution: Option<HybridTierResolution> = None;
        if requested_tier.is_none() {
            if has_graph {
                tier_resolution = Some(HybridTierResolution::Auto);
            } else {
                resolved = options.with_tier(SearchTier::Exact);
                tier_resolution = Some(HybridTierResolution::Exact);
            }
        }
        let width: usize = if max_rounds == 0 {
            corpus_rows
        } else {
            let window = hybrid_window(k, corpus_rows)?;
            window.width
        };
        Ok(
            HybridSearch {
                options: resolved,
                requested_tier,
                tier_resolution,
                has_graph,
                corpus_rows,
                max_rounds,
                width,
                rounds: 1,
                budget_exhausted: false,
            },
        )
    }

    /// Rows that both producers of this round are asked for: one more than the
    /// window, because the row behind it bounds what was not seen.
    pub open spec fn spec_producer_width(self) -> usize {
        one_more(self.width)
    }

    /// Rows that both producers of this round are asked for.
    pub fn producer_width(&self) -> (k: usize)
        ensures
            k == self.spec_producer_width(),
    {
        self.width.saturating_add(1)
    }

    /// What the vector leg of this round is asked. A tier that the caller chose
    /// is a contract; otherwise a round that would traverse most of the corpus
    /// runs exact, and says why.
    pub open spec fn spec_vector_round(self) -> VectorRound {
        let k = self.spec_producer_width();
        let chosen = self.requested_tier is Some;
        let worth_it = round_is_worth_it(k as nat, self.corpus_rows as nat);
        VectorRound {
            k,
            options: if chosen || worth_it {
                self.options
            } else {
                SearchOptions { tier: Some(SearchTier::Exact), ..self.options }
            },
            scan_reason: if chosen || !self.has_graph {
                None
            } else if k > self.corpus_rows {
                Some(ScanReason::FullMaterialization)
            } else if worth_it {
                None
            } else {
                Some(
                    ScanReason::WideningCap {
                        ef: round_ef(k as nat) as usize,
                        rows: self.corpus_rows,
                    },
                )
            },
        }
    }

    /// What the vector leg of this round is asked.
    pub fn vector_round(&self) -> (round: VectorRound)
        ensures
            round == self.spec_vector_round(),
    {
        let k: usize = self.producer_width();
        let chosen = self.requested_tier.is_some();
        let worth_it = graph_round_is_worth_it(k, self.corpus_rows);
        let scan_reason = if chosen || !self.has_graph {
            None
        } else if k > self.corpus_rows {
            Some(ScanReason::FullMaterialization)
        } else if worth_it {
            None
        } else {
            Some(ScanReason::WideningCap { ef: graph_round_ef(k), rows: self.corpus_rows })
        };
        let options = if chosen || worth_it {
            self.options
        } else {
            self.options.with_tier(SearchTier::Exact)
        };
        VectorRound { k, options, scan_reason }
    }

    /// Whether a round's termination ends the query: where the window was
    /// proven or approximate, or where it held the corpus.
    pub open spec fn ends(self, termination: FusionTermination) -> bool {
        termination != FusionTermination::WindowUnproven || self.width >= self.corpus_rows
    }

    /// The query with a wider window: twice as wide, or the corpus where the
    /// round budget is spent.
    pub open spec fn widened(self) -> HybridSearch {
        HybridSearch {
            width: if self.rounds >= self.max_rounds {
                self.corpus_rows
            } else {
                doubled(self.width as nat, self.corpus_rows as nat) as usize
            },
            rounds: one_more(self.rounds),
            budget_exhausted: self.budget_exhausted || self.rounds >= self.max_rounds,
            ..self
        }
    }

    /// Takes the termination of a fused round and decides whether the query
    /// ends or goes on with a wider window.
    pub fn accept_round(&mut self, termination: FusionTermination) -> (step: HybridStep)
        ensures
            old(self).ends(termination) ==> step == HybridStep::Done && *final(self) == *old(self),
            !old(self).ends(termination) ==> step == HybridStep::Again && *final(self) == old(
                self,
            ).widened(),
    {
        if termination != FusionTermination::WindowUnproven || self.width >= self.corpus_rows {
            return HybridStep::Done;
        }
        if self.rounds >= self.max_rounds {
            self.budget_exhausted = true;
            self.width = self.corpus_rows;
        } else {
            self.width =
            match self.width.checked_mul(2) {
                Some(double) => {
                    if double < self.corpus_rows {
                        double
                    } else {
                        self.corpus_rows
                    }
                },
                None => self.corpus_rows,
            };
        }
        self.rounds = self.rounds.saturating_add(1);
        HybridStep::Again
    }

    /// The report of the query behind its last round: how many rounds it took,
    /// and that the budget ran out where it did.
    pub open spec fn spec_finish(self, fused: FusionReport) -> FusionReport {
        FusionReport {
            termination: if self.budget_exhausted {
                FusionTermination::BudgetFullMaterialization
            } else {
                fused.termination
            },
            rounds: self.rounds,
            budget_exhausted: fused.budget_exhausted || self.budget_exhausted,
        }
    }

    /// The report of the query behind its last round.
    pub fn finish(&self, fused: FusionReport) -> (report: FusionReport)
        ensures
            report == self.spec_finish(fused),
    {
        let mut report = fused;
        report.rounds = self.rounds;
        if self.budget_exhausted {
            report.budget_exhausted = true;
            report.termination = FusionTermination::BudgetFullMaterialization;
        }
        report
    }
}

/// What the last round of a hybrid query held.
#[derive(Clone, Copy, Debug, PartialEq, Eq, Structural)]
pub struct HybridReport {
    pub window: usize,
    pub vector_returned: usize,
    pub lexical_returned: usize,
    pub cross_filled_vector: usize,
    pub cross_filled_lexical: usize,
}

/// What a hybrid query reports of itself.
#[derive(Debug)]
pub struct HybridDiagnostics {
    pub snapshot_generation: u64,
    pub indexed_through_seq: u64,
    pub plan: Vec<SegmentPlan>,
    pub approximate: bool,
    pub exact_rescore: bool,
    pub requested_k: usize,
    pub returned: usize,
    pub scan: ScanStats,
    pub graph: GraphSearchStats,
    pub lexical: SearchCounters,
    pub report: FusionReport,
    pub hybrid: HybridReport,
    pub tier_resolution: Option<HybridTierResolution>,
    pub epoch: Option<EpochIdentity>,
    /// What the text of the hits took, where the caller asked for it.
    pub materialization: Option<MaterializationCounters>,
    /// Nanoseconds.
    pub elapsed: u128,
}

/// Outcome of a hybrid query.
#[derive(Debug)]
pub struct StoreHybridSearchOutcome {
    /// Keys of the fused hits, best first.
    pub hits: Vec<DocId>,
    pub lexical_expansions: Vec<LexicalExpansion>,
    pub generation: u64,
    pub diagnostics: HybridDiagnostics,
}

impl HybridSearch {
    /// Ends a hybrid query: the fused hits of its last round, with the path that
    /// both legs of that round took and the work of all rounds. `round` was built
    /// from `buffers`; `expansions` are those of the first round.
    pub fn finish_hybrid(
        &self,
        work: HybridWork,
        vector: SearchOutcome,
        expansions: Vec<LexicalExpansion>,
        fused: FusionOutcome,
        round: &HybridRound,
        buffers: &HybridRoundBuffers,
        k: usize,
        elapsed: u128,
    ) -> (outcome: StoreHybridSearchOutcome)
        ensures
            outcome.hits == fused.hits,
            outcome.lexical_expansions == expansions,
            outcome.generation == vector.generation,
            outcome.diagnostics.snapshot_generation == vector.diagnostics.snapshot_generation,
            outcome.diagnostics.indexed_through_seq == vector.diagnostics.indexed_through_seq,
            outcome.diagnostics.plan == vector.diagnostics.plan,
            outcome.diagnostics.approximate == vector.diagnostics.approximate,
            outcome.diagnostics.exact_rescore == vector.diagnostics.exact_rescore,
            outcome.diagnostics.requested_k == k,
            outcome.diagnostics.returned == fused.hits@.len(),
            outcome.diagnostics.scan == work.scan,
            outcome.diagnostics.graph == work.graph,
            outcome.diagnostics.lexical == work.lexical,
            outcome.diagnostics.report == self.spec_finish(fused.report),
            outcome.diagnostics.hybrid == (HybridReport {
                window: self.width,
                vector_returned: buffers.vector.items@.len() as usize,
                lexical_returned: buffers.lexical.items@.len() as usize,
                cross_filled_vector: round.cross_filled_vector,
                cross_filled_lexical: round.cross_filled_lexical,
            }),
            outcome.diagnostics.tier_resolution == self.tier_resolution,
            outcome.diagnostics.epoch == vector.epoch,
            outcome.diagnostics.materialization is None,
            outcome.diagnostics.elapsed == elapsed,
    {
        let report = self.finish(fused.report);
        let returned: usize = fused.hits.len();
        StoreHybridSearchOutcome {
            hits: fused.hits,
            lexical_expansions: expansions,
            generation: vector.generation,
            diagnostics: HybridDiagnostics {
                snapshot_generation: vector.diagnostics.snapshot_generation,
                indexed_through_seq: vector.diagnostics.indexed_through_seq,
                plan: vector.diagnostics.plan,
                approximate: vector.diagnostics.approximate,
                exact_rescore: vector.diagnostics.exact_rescore,
                requested_k: k,
                returned,
                scan: work.scan,
                graph: work.graph,
                lexical: work.lexical,
                report,
                hybrid: HybridReport {
                    window: self.width,
                    vector_returned: buffers.vector.items.len(),
                    lexical_returned: buffers.lexical.items.len(),
                    cross_filled_vector: round.cross_filled_vector,
                    cross_filled_lexical: round.cross_filled_lexical,
                },
                tier_resolution: self.tier_resolution,
                epoch: vector.epoch,
                materialization: None,
                elapsed,
            },
        }
    }
}

/// The result of a vector leg; `ran` is none where it panicked, and `inner` is
/// how the scan or graph engine words its own failure.
pub fn vector_leg_result<R>(ran: Option<Result<R, QueryError>>, inner: &str) -> (result: Result<
    R,
    FusionError,
>)
    ensures
        match ran {
            None => result == Err::<R, FusionError>(
                FusionError::LegPanic {
                    leg: FusionLeg::Vector,
                    detail: "vector hybrid leg panicked",
                },
            ),
            Some(Ok(value)) => result == Ok::<R, FusionError>(value),
            Some(Err(error)) => result matches Err(failure) && failure.stands_for(
                error,
                FusionLeg::Vector,
                inner@,
            ),
        },
{
    match ran {
        None => Err(
            FusionError::LegPanic {
                leg: FusionLeg::Vector,
                detail: "vector hybrid leg panicked",
            },
        ),
        Some(Ok(value)) => Ok(value),
        Some(Err(error)) => Err(FusionError::from_query(error, FusionLeg::Vector, inner)),
    }
}

/// Takes an armed leg fault for `leg`: it fires once.
pub fn consume_hybrid_test_fault(fault: &mut Option<HybridLegTestFault>, leg: FusionLeg) -> (fires:
    bool)
    ensures
        fires == (*old(fault) == Some(HybridLegTestFault::Panic(leg))),
        *final(fault) == if fires {
            None
        } else {
            *old(fault)
        },
{
    match *fault {
        Some(HybridLegTestFault::Panic(armed)) => {
            if armed == leg {
                *fault = None;
                true
            } else {
                false
            }
        },
        None => false,
    }
}

/// A query that goes on spends a round of its budget, and its window grows,
/// unless it was empty. Behind the last budgeted round the window is the corpus,
/// so the next round ends the query.
pub proof fn lemma_hybrid_rounds_end(search: HybridSearch, termination: FusionTermination)
    requires
        !search.ends(termination),
        search.rounds <= search.max_rounds + 1,
        search.rounds < usize::MAX,
    ensures
        search.widened().rounds == search.rounds + 1,
        search.width > 0 ==> search.widened().width > search.width,
        search.rounds >= search.max_rounds ==> forall|next: FusionTermination|
            search.widened().ends(next),
{
}

/// A window is never wider than the corpus.
pub proof fn lemma_width_stays_within_corpus(search: HybridSearch)
    requires
        search.width <= search.corpus_rows,
    ensures
        search.widened().width <= search.corpus_rows,
{
}

/// A tier that the caller chose is never replaced.
pub proof fn lemma_explicit_tier_is_honoured(
    options: SearchOptions,
    has_graph: bool,
    corpus_rows: usize,
    k: usize,
    max_rounds: usize,
)
    requires
        options.tier is Some,
    ensures
        ({
            let search = HybridSearch::spec_begin(options, has_graph, corpus_rows, k, max_rounds);
            &&& search.spec_vector_round().options == options
            &&& search.spec_vector_round().scan_reason is None
            &&& search.tier_resolution is None
        }),
{
}

} // verus!
