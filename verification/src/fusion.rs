//! Outcomes of a hybrid query: legs, coverage, termination and failures.

use crate::error::QueryError;
use crate::error::ScanError;
use crate::error::StoreErrorKind;
use crate::ids::DocId;
use vstd::prelude::*;

verus! {

/// One producer of a hybrid query.
#[derive(Clone, Copy, Debug, PartialEq, Eq, Structural)]
pub enum FusionLeg {
    Vector,
    Lexical,
}

/// Layer in which a leg failed.
#[derive(Clone, Copy, Debug, PartialEq, Eq, Structural)]
pub enum LegFailureKind {
    Store(StoreErrorKind),
    Scan,
    Graph,
    Segment,
    Lexical,
    Invariant,
}

/// Failure of a hybrid query.
#[derive(Clone, Debug, PartialEq, Eq)]
pub enum FusionError {
    Leg { leg: FusionLeg, kind: LegFailureKind, detail: String },
    LegThreadStart { leg: FusionLeg, detail: String },
    LegPanic { leg: FusionLeg, detail: &'static str },
    Timeout { partial: bool },
    Cancelled { partial: bool },
    ReadCancelled { partial: bool },
}

/// How much of the corpus a producer's list speaks for.
#[derive(Clone, Copy, Debug, PartialEq, Eq, Structural)]
pub enum CandidateCoverage {
    Exhaustive,
    CertifiedBounded,
    Approximate,
}

/// Whether scores are exact.
#[derive(Clone, Copy, Debug, PartialEq, Eq, Structural)]
pub enum ScorePrecision {
    Exact,
    Estimated,
}

/// Where a round's candidates and scores come from.
#[derive(Clone, Copy, Debug, PartialEq, Eq, Structural)]
pub struct HybridProvenance {
    pub vector_precision: ScorePrecision,
    pub vector_coverage: CandidateCoverage,
    pub lexical_coverage: CandidateCoverage,
    pub cross_scores_complete: bool,
}

/// Why a hybrid query stopped.
#[derive(Clone, Copy, Debug, PartialEq, Eq, Structural)]
pub enum FusionTermination {
    /// The window was shown to hold the best `k`.
    WindowStable,
    /// Both producers were exhausted.
    Exhausted,
    /// The window could not be shown to hold the best `k`.
    WindowUnproven,
    /// The candidates of a producer are approximate.
    ApproximateCandidates,
    /// The round budget ran out and the whole corpus was read.
    BudgetFullMaterialization,
}

/// Report of one fusion.
#[derive(Clone, Copy, Debug, PartialEq, Eq, Structural)]
pub struct FusionReport {
    pub termination: FusionTermination,
    pub rounds: usize,
    pub budget_exhausted: bool,
}

/// Keys of the fused hits, best first, and the report.
#[derive(Debug)]
pub struct FusionOutcome {
    pub hits: Vec<DocId>,
    pub report: FusionReport,
}

impl FusionError {
    /// Whether the failure is a stop by the caller, the deadline or close, and
    /// which of two stops is reported: the smaller number.
    pub open spec fn control_priority(self) -> Option<int> {
        match self {
            FusionError::ReadCancelled { .. } => Some(0),
            FusionError::Timeout { .. } => Some(1),
            FusionError::Cancelled { .. } => Some(2),
            _ => None,
        }
    }

    /// The layer of a query failure that is no stop.
    pub open spec fn layer(error: QueryError) -> LegFailureKind {
        match error {
            QueryError::Store(store) => LegFailureKind::Store(store.spec_kind()),
            QueryError::Graph(_) => LegFailureKind::Graph,
            _ => LegFailureKind::Scan,
        }
    }

    /// A query failure of `leg` as a hybrid failure: stops keep their kind, a
    /// failure becomes one of its leg and layer.
    pub open spec fn stands_for(self, error: QueryError, leg: FusionLeg, inner: Seq<char>) -> bool {
        match error {
            QueryError::Timeout { partial } => self == (FusionError::Timeout { partial }),
            QueryError::Cancelled { partial } => self == (FusionError::Cancelled { partial }),
            QueryError::ReadCancelled { partial } => self == (FusionError::ReadCancelled {
                partial,
            }),
            QueryError::Scan(ScanError::Timeout { partial }) => self == (FusionError::Timeout {
                partial,
            }),
            QueryError::Scan(ScanError::Cancelled { partial }) => self == (FusionError::Cancelled {
                partial,
            }),
            QueryError::Scan(ScanError::ReadCancelled { partial }) => self == (
            FusionError::ReadCancelled { partial }),
            _ => self matches FusionError::Leg { leg: at, kind, detail } && at == leg && kind
                == Self::layer(error) && detail@ == error.spec_message(inner),
        }
    }

    /// Turns a query failure of `leg` into a hybrid failure. `inner` is how the
    /// scan or graph engine words its own failure.
    pub fn from_query(error: QueryError, leg: FusionLeg, inner: &str) -> (result: FusionError)
        ensures
            result.stands_for(error, leg, inner@),
    {
        let detail = error.message(inner);
        match error {
            QueryError::Timeout { partial } => FusionError::Timeout { partial },
            QueryError::Cancelled { partial } => FusionError::Cancelled { partial },
            QueryError::ReadCancelled { partial } => FusionError::ReadCancelled { partial },
            QueryError::Scan(scan) => match scan {
                ScanError::Timeout { partial } => FusionError::Timeout { partial },
                ScanError::Cancelled { partial } => FusionError::Cancelled { partial },
                ScanError::ReadCancelled { partial } => FusionError::ReadCancelled { partial },
                _ => FusionError::Leg { leg, kind: LegFailureKind::Scan, detail },
            },
            QueryError::Store(store) => FusionError::Leg {
                leg,
                kind: LegFailureKind::Store(store.kind()),
                detail,
            },
            QueryError::Graph(_) => FusionError::Leg { leg, kind: LegFailureKind::Graph, detail },
        }
    }

    /// Whether the failure is a stop by the caller, the deadline or close.
    pub fn is_stop(&self) -> (result: bool)
        ensures
            result == (self.control_priority() is Some),
    {
        self.priority().is_some()
    }

    fn priority(&self) -> (result: Option<u8>)
        ensures
            match result {
                Some(value) => self.control_priority() == Some(value as int),
                None => self.control_priority() is None,
            },
    {
        match self {
            FusionError::ReadCancelled { .. } => Some(0),
            FusionError::Timeout { .. } => Some(1),
            FusionError::Cancelled { .. } => Some(2),
            _ => None,
        }
    }
}

/// Which of two failures is reported: a stop before a failure, the stop of
/// lower priority number, and of two failures that of the vector leg.
pub open spec fn reported_failure(vector: FusionError, lexical: FusionError) -> FusionError {
    match (vector.control_priority(), lexical.control_priority()) {
        (Some(left), Some(right)) => if left <= right {
            vector
        } else {
            lexical
        },
        (None, Some(_)) => lexical,
        _ => vector,
    }
}

/// Picks which of two failures is reported.
pub fn report_failure(vector: FusionError, lexical: FusionError) -> (error: FusionError)
    ensures
        error == reported_failure(vector, lexical),
{
    match (vector.priority(), lexical.priority()) {
        (Some(left), Some(right)) => if left <= right {
            vector
        } else {
            lexical
        },
        (None, Some(_)) => lexical,
        _ => vector,
    }
}

/// Joins the results of both legs; which leg finished first plays no part.
pub fn resolve_hybrid_leg_results<Vector, Lexical>(
    vector: Result<Vector, FusionError>,
    lexical: Result<Lexical, FusionError>,
) -> (result: Result<(Vector, Lexical), FusionError>)
    ensures
        result == match (vector, lexical) {
            (Ok(left), Ok(right)) => Ok((left, right)),
            (Err(error), Ok(_)) => Err(error),
            (Ok(_), Err(error)) => Err(error),
            (Err(left), Err(right)) => Err(reported_failure(left, right)),
        },
{
    match vector {
        Ok(left) => match lexical {
            Ok(right) => Ok((left, right)),
            Err(error) => Err(error),
        },
        Err(left) => match lexical {
            Ok(_) => Err(left),
            Err(right) => Err(report_failure(left, right)),
        },
    }
}

/// A stop is never hidden by a failure, and of two stops the one of lower
/// priority number is reported, whichever leg it came from.
pub proof fn lemma_stops_win_over_failures(vector: FusionError, lexical: FusionError)
    ensures
        vector.control_priority() is Some || lexical.control_priority() is Some
            ==> reported_failure(vector, lexical).control_priority() is Some,
        vector.control_priority() is Some && lexical.control_priority() is Some
            ==> reported_failure(vector, lexical).control_priority() == reported_failure(
            lexical,
            vector,
        ).control_priority(),
        reported_failure(vector, lexical) == vector || reported_failure(vector, lexical) == lexical,
{
}

} // verus!
