//! Queries whose caller turns the ranked hits into owned text before the
//! snapshot is let go.

use crate::control::QueryCancellation;
use crate::control::StopFlags;
use crate::control::StopState;
use crate::error::QueryError;
use crate::error::ScanError;
use crate::fusion::report_failure;
use crate::fusion::reported_failure;
use crate::fusion::FusionError;
use crate::fusion::FusionLeg;
use crate::hybrid_search::HybridDiagnostics;
use crate::hybrid_search::StoreHybridSearchOutcome;
use crate::lexical::StoreLexicalError;
use crate::lexical_search::LexicalDiagnostics;
use crate::lexical_search::StoreLexicalSearchOutcome;
use crate::materialize::HybridPreparationError;
use crate::materialize::QueryMaterializer;
use crate::search::map_scan_error;
use crate::search::scan_failure;
use crate::store::Store;
use crate::vector_search::SearchOutcome;
use crate::vector_search::VectorDiagnostics;
use vstd::prelude::*;

verus! {

/// The stop that a query is under, if it is under one.
pub open spec fn stop_before_text(cancellation: QueryCancellation, flags: Seq<StopState>) -> Option<
    QueryError,
> {
    match cancellation.checked(flags) {
        Err(error) => Some(scan_failure(error)),
        Ok(_) => None,
    }
}

fn stop_at(cancellation: &QueryCancellation, flags: &mut StopFlags, now: u128) -> (result: Result<
    (),
    QueryError,
>)
    requires
        cancellation.control.on_board(old(flags)@),
    ensures
        final(flags)@ == cancellation.control.looked(old(flags)@, now),
        result == match stop_before_text(*cancellation, final(flags)@) {
            Some(error) => Err(error),
            None => Ok(()),
        },
{
    match cancellation.check_graph(flags, now) {
        Ok(_) => Ok(()),
        Err(error) => Err(map_scan_error(error)),
    }
}

/// Opens text access to a ranked outcome, unless the query has to stop.
pub fn open_text(cancellation: QueryCancellation, flags: &mut StopFlags, now: u128) -> (result:
    Result<QueryMaterializer, QueryError>)
    requires
        cancellation.control.on_board(old(flags)@),
    ensures
        final(flags)@ == cancellation.control.looked(old(flags)@, now),
        result == match stop_before_text(cancellation, final(flags)@) {
            Some(error) => Err(error),
            None => Ok(QueryMaterializer::spec_new(cancellation)),
        },
{
    stop_at(&cancellation, flags, now)?;
    Ok(QueryMaterializer::new(cancellation))
}

impl Store {
    /// Ends a vector query with text: its diagnostics say what the text took. A stop
    /// found behind the caller's work fails the query.
    pub fn search_with_text(
        outcome: SearchOutcome,
        materializer: &QueryMaterializer,
        flags: &mut StopFlags,
        now: u128,
    ) -> (result: Result<SearchOutcome, QueryError>)
        requires
            materializer.cancellation.control.on_board(old(flags)@),
        ensures
            final(flags)@ == materializer.cancellation.control.looked(old(flags)@, now),
            result == match stop_before_text(materializer.cancellation, final(flags)@) {
                Some(error) => Err(error),
                None => Ok(
                    SearchOutcome {
                        diagnostics: VectorDiagnostics {
                            materialization: Some(materializer.counts),
                            ..outcome.diagnostics
                        },
                        ..outcome
                    },
                ),
            },
    {
        stop_at(&materializer.cancellation, flags, now)?;
        Ok(
            SearchOutcome {
                diagnostics: VectorDiagnostics {
                    materialization: Some(materializer.counts),
                    ..outcome.diagnostics
                },
                ..outcome
            },
        )
    }

    /// Ends a lexical query with text.
    pub fn search_lexical_with_text(
        outcome: StoreLexicalSearchOutcome,
        materializer: &QueryMaterializer,
        flags: &mut StopFlags,
        now: u128,
    ) -> (result: Result<StoreLexicalSearchOutcome, StoreLexicalError>)
        requires
            materializer.cancellation.control.on_board(old(flags)@),
        ensures
            final(flags)@ == materializer.cancellation.control.looked(old(flags)@, now),
            result == match stop_before_text(materializer.cancellation, final(flags)@) {
                Some(error) => Err(StoreLexicalError::Query(error)),
                None => Ok(
                    StoreLexicalSearchOutcome {
                        diagnostics: LexicalDiagnostics {
                            materialization: Some(materializer.counts),
                            ..outcome.diagnostics
                        },
                        ..outcome
                    },
                ),
            },
    {
        match stop_at(&materializer.cancellation, flags, now) {
            Err(error) => Err(StoreLexicalError::Query(error)),
            Ok(_) => Ok(
                StoreLexicalSearchOutcome {
                    diagnostics: LexicalDiagnostics {
                        materialization: Some(materializer.counts),
                        ..outcome.diagnostics
                    },
                    ..outcome
                },
            ),
        }
    }

    /// Ends a hybrid query with text. `inner` is how the scan engine words its own
    /// failure.
    pub fn search_hybrid_with_text(
        outcome: StoreHybridSearchOutcome,
        materializer: &QueryMaterializer,
        flags: &mut StopFlags,
        now: u128,
        inner: &str,
    ) -> (result: Result<StoreHybridSearchOutcome, FusionError>)
        requires
            materializer.cancellation.control.on_board(old(flags)@),
        ensures
            final(flags)@ == materializer.cancellation.control.looked(old(flags)@, now),
            match stop_before_text(materializer.cancellation, final(flags)@) {
                Some(error) => result matches Err(failure) && failure.stands_for(
                    error,
                    FusionLeg::Vector,
                    inner@,
                ),
                None => result == Ok::<StoreHybridSearchOutcome, FusionError>(
                    StoreHybridSearchOutcome {
                        diagnostics: HybridDiagnostics {
                            materialization: Some(materializer.counts),
                            ..outcome.diagnostics
                        },
                        ..outcome
                    },
                ),
            },
    {
        match stop_at(&materializer.cancellation, flags, now) {
            Err(error) => Err(FusionError::from_query(error, FusionLeg::Vector, inner)),
            Ok(_) => Ok(
                StoreHybridSearchOutcome {
                    diagnostics: HybridDiagnostics {
                        materialization: Some(materializer.counts),
                        ..outcome.diagnostics
                    },
                    ..outcome
                },
            ),
        }
    }
}

/// How a hybrid query ran whose vector was produced behind its admission, while
/// its lexical leg was on its way.
#[derive(Debug)]
pub enum DeferredQuery<R, L, E> {
    /// The vector was there, and the query ran.
    Searched(Result<R, FusionError>),
    /// There was no vector: the producer failed with its own error, or panicked
    /// where it has none. The lexical leg was joined.
    Unprepared { failure: Option<E>, lexical: Result<L, FusionError> },
}

/// The stop that a query is under, as a hybrid failure.
pub open spec fn stop_failure(cancellation: QueryCancellation, flags: Seq<StopState>) -> Option<
    FusionError,
> {
    match cancellation.checked(flags) {
        Err(ScanError::Cancelled { partial }) => Some(FusionError::Cancelled { partial }),
        Err(ScanError::Timeout { partial }) => Some(FusionError::Timeout { partial }),
        Err(ScanError::ReadCancelled { partial }) => Some(FusionError::ReadCancelled { partial }),
        _ => None,
    }
}

/// What a query without a vector is answered: a stop before everything else, of
/// two stops the one that is reported first, and otherwise the producer's own
/// error, or the panic of the vector leg.
pub open spec fn unprepared_answer<L, E>(
    stop: Option<FusionError>,
    failure: Option<E>,
    lexical: Result<L, FusionError>,
) -> HybridPreparationError<E> {
    match (stop, lexical) {
        (Some(stopped), Err(error)) => HybridPreparationError::Search(
            reported_failure(stopped, error),
        ),
        (Some(stopped), Ok(_)) => HybridPreparationError::Search(stopped),
        (None, Err(error)) if error.control_priority() is Some => HybridPreparationError::Search(
            error,
        ),
        _ => match failure {
            Some(error) => HybridPreparationError::Preparation(error),
            None => HybridPreparationError::Search(
                FusionError::LegPanic {
                    leg: FusionLeg::Vector,
                    detail: "vector hybrid leg panicked",
                },
            ),
        },
    }
}

impl Store {
    /// Ends a hybrid query whose vector was produced behind its admission. What kept
    /// the caller from a vector keeps its own type, unless the query was stopped.
    pub fn search_hybrid_with_text_deferred<R, L, E>(
        ran: DeferredQuery<R, L, E>,
        cancellation: &QueryCancellation,
        flags: &mut StopFlags,
        now: u128,
    ) -> (result: Result<R, HybridPreparationError<E>>)
        requires
            cancellation.control.on_board(old(flags)@),
        ensures
            match ran {
                DeferredQuery::Searched(searched) => {
                    &&& final(flags)@ == old(flags)@
                    &&& result == match searched {
                        Ok(found) => Ok(found),
                        Err(error) => Err(HybridPreparationError::<E>::Search(error)),
                    }
                },
                DeferredQuery::Unprepared { failure, lexical } => {
                    &&& final(flags)@ == cancellation.control.looked(old(flags)@, now)
                    &&& result == Err::<R, HybridPreparationError<E>>(
                        unprepared_answer(stop_failure(*cancellation, final(flags)@), failure, lexical),
                    )
                },
            },
    {
        let (failure, lexical) = match ran {
            DeferredQuery::Searched(Ok(found)) => {
                return Ok(found);
            },
            DeferredQuery::Searched(Err(error)) => {
                return Err(HybridPreparationError::Search(error));
            },
            DeferredQuery::Unprepared { failure, lexical } => (failure, lexical),
        };
        let stop = match cancellation.check_graph(flags, now) {
            Err(ScanError::Cancelled { partial }) => Some(FusionError::Cancelled { partial }),
            Err(ScanError::Timeout { partial }) => Some(FusionError::Timeout { partial }),
            Err(ScanError::ReadCancelled { partial }) => Some(FusionError::ReadCancelled { partial }),
            _ => None,
        };
        let failed = match (stop, lexical) {
            (Some(stopped), Err(error)) => Some(report_failure(stopped, error)),
            (Some(stopped), Ok(_)) => Some(stopped),
            (None, Err(error)) => if error.is_stop() {
                Some(error)
            } else {
                None
            },
            (None, Ok(_)) => None,
        };
        Err(
            match (failed, failure) {
                (Some(error), _) => HybridPreparationError::Search(error),
                (None, Some(error)) => HybridPreparationError::Preparation(error),
                (None, None) => HybridPreparationError::Search(
                    FusionError::LegPanic {
                        leg: FusionLeg::Vector,
                        detail: "vector hybrid leg panicked",
                    },
                ),
            },
        )
    }
}

/// A stop is never hidden by what kept the caller from a vector, and without one
/// the caller's own error comes back.
pub proof fn lemma_stops_win_over_preparation<L, E>(
    stop: Option<FusionError>,
    failure: E,
    lexical: Result<L, FusionError>,
)
    requires
        stop matches Some(stopped) ==> stopped.control_priority() is Some,
    ensures
        ({
            let stopped = stop is Some || (lexical matches Err(error)
                && error.control_priority() is Some);
            match unprepared_answer(stop, Some(failure), lexical) {
                HybridPreparationError::Search(error) => stopped && error.control_priority() is Some,
                HybridPreparationError::Preparation(error) => !stopped && error == failure,
            }
        }),
{
}

} // verus!
