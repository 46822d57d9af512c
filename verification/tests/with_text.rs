use zeppelin_embed::candidates::{GraphSearchStats, ScanStats, SearchCandidate, SearchCounters};
use zeppelin_embed::clock::{ManualMonotonicClock, MonotonicClock};
use zeppelin_embed::control::{
    CancelToken, Deadline, QueryCancellation, QueryControl, StopFlags, StopState,
};
use zeppelin_embed::error::{QueryError, ScanError};
use zeppelin_embed::fusion::{
    FusionError, FusionLeg, FusionOutcome, FusionReport, FusionTermination, LegFailureKind,
};
use zeppelin_embed::hybrid::{HybridRoundBuffers, HybridWork};
use zeppelin_embed::hybrid_search::{
    vector_leg_result, HybridReport, HybridSearch, HybridTierResolution, StoreHybridSearchOutcome,
};
use zeppelin_embed::ids::{DocId, DocumentVersion, GlobalRowId, Revision, RowSource};
use zeppelin_embed::lexical::{LexicalExpansion, LexicalMatchKind, StoreLexicalError};
use zeppelin_embed::lexical_search::{
    LexicalDiagnostics, LexicalResult, StoreLexicalSearchOutcome,
};
use zeppelin_embed::materialize::{
    HybridPreparationError, MaterializationCounters, MaterializationTestCounters,
};
use zeppelin_embed::options::{ScanOptions, SearchOptions};
use zeppelin_embed::round::{HybridRound, LexicalBounds};
use zeppelin_embed::score::{Double, Score};
use zeppelin_embed::store::Store;
use zeppelin_embed::vector_search::{SearchOutcome, VectorDiagnostics};
use zeppelin_embed::with_text::{open_text, DeferredQuery};

fn version(doc: u128) -> DocumentVersion {
    DocumentVersion::new(DocId::new(doc), Revision::new(1))
}

fn double(value: f64) -> Double {
    Double { bits: value.to_bits() }
}

fn query() -> (StopFlags, CancelToken, QueryCancellation) {
    let mut flags = StopFlags::new();
    let token = CancelToken::new(&mut flags);
    let lease = flags.add_flag();
    (flags, token, QueryCancellation::new(QueryControl::Cancel(token), lease))
}

fn stats() -> ScanStats {
    ScanStats { dims_touched: 8, bytes_read: 32, threads_used: 1, worker_thread_ids: vec![5] }
}

fn vector_outcome() -> SearchOutcome {
    SearchOutcome {
        candidates: vec![SearchCandidate {
            row_id: GlobalRowId::new(RowSource::Active, 3),
            document: Some(version(9)),
            score: Score { bits: (-2.0_f32).to_bits() },
            exact_score: true,
        }],
        vector_ceiling: Some(double(4.0)),
        stats: stats(),
        graph_stats: GraphSearchStats::zero(),
        generation: 6,
        epoch: None,
        diagnostics: VectorDiagnostics {
            snapshot_generation: 6,
            indexed_through_seq: 11,
            approximate: false,
            exact_rescore: true,
            requested_k: 1,
            returned: 1,
            budget_exhausted: false,
            plan: vec![],
            scan: stats(),
            graph: GraphSearchStats::zero(),
            epoch: None,
            materialization: None,
            elapsed: 70,
        },
    }
}

fn lexical_outcome() -> StoreLexicalSearchOutcome {
    StoreLexicalSearchOutcome {
        candidates: vec![LexicalResult { document: version(9), score: double(1.5) }],
        generation: 6,
        diagnostics: LexicalDiagnostics {
            snapshot_generation: 6,
            indexed_through_seq: 11,
            requested_k: 1,
            returned: 1,
            counters: SearchCounters::zero(),
            materialization: None,
            elapsed: 70,
        },
    }
}

fn lexical_work() -> SearchCounters {
    SearchCounters { docs_evaluated: 4, postings_decoded: 3, blocks_decoded: 2, blocks_skipped: 1 }
}

fn hybrid_outcome() -> StoreHybridSearchOutcome {
    let options = SearchOptions::new(ScanOptions { thread_budget: 0 });
    let search = HybridSearch::begin(options, true, 900, 1, 4).expect("begin");
    let round = HybridRound {
        addresses: None,
        vector_bounds: None,
        lexical_bounds: LexicalBounds { max_bm25: double(9.0), next_unseen_bm25: None },
        cross_filled_vector: 2,
        cross_filled_lexical: 3,
        lexical_counters: SearchCounters::zero(),
        vector_scores_computed: 2,
        lexical_scores_computed: 3,
    };
    let expansion = LexicalExpansion {
        term: "airship".to_owned(),
        boost_thousandths: 1000,
        kind: LexicalMatchKind::Term,
    };
    let fused = FusionOutcome {
        hits: vec![DocId::new(9), DocId::new(4)],
        report: FusionReport {
            termination: FusionTermination::WindowStable,
            rounds: 0,
            budget_exhausted: false,
        },
    };
    let mut work = HybridWork::new();
    work.complete_round(&stats(), GraphSearchStats::zero(), lexical_work()).expect("round");
    work.complete_fill(&round, 3).expect("fill");
    search.finish_hybrid(
        work,
        vector_outcome(),
        vec![expansion],
        fused,
        &round,
        &HybridRoundBuffers::new(),
        2,
        80,
    )
}

const COUNTS: MaterializationCounters =
    MaterializationCounters { row_lookups: 2, text_copies: 1, text_bytes: 40 };

#[test]
fn a_hybrid_query_reports_its_last_round_and_all_its_work() {
    let outcome = hybrid_outcome();
    assert_eq!(outcome.hits, vec![DocId::new(9), DocId::new(4)]);
    assert_eq!(outcome.lexical_expansions.len(), 1);
    assert_eq!(outcome.generation, 6);
    let diagnostics = outcome.diagnostics;
    assert_eq!(diagnostics.indexed_through_seq, 11);
    assert_eq!(diagnostics.requested_k, 2);
    assert_eq!(diagnostics.returned, 2);
    assert_eq!(diagnostics.scan.dims_touched, 8 + 2 * 3);
    assert_eq!(diagnostics.scan.bytes_read, 32 + 2 * 3 * 4);
    assert_eq!(diagnostics.scan.worker_thread_ids, vec![5]);
    assert_eq!(diagnostics.lexical, lexical_work());
    assert_eq!(diagnostics.tier_resolution, Some(HybridTierResolution::Auto));
    assert_eq!(
        diagnostics.report,
        FusionReport {
            termination: FusionTermination::WindowStable,
            rounds: 1,
            budget_exhausted: false,
        }
    );
    assert_eq!(
        diagnostics.hybrid,
        HybridReport {
            window: 50,
            vector_returned: 0,
            lexical_returned: 0,
            cross_filled_vector: 2,
            cross_filled_lexical: 3,
        }
    );
    assert_eq!(diagnostics.materialization, None);
    assert_eq!(diagnostics.elapsed, 80);
}

#[test]
fn a_vector_leg_fails_as_what_ended_it() {
    assert_eq!(vector_leg_result(Some(Ok(7)), "").ok(), Some(7));
    assert!(matches!(
        vector_leg_result::<u8>(None, ""),
        Err(FusionError::LegPanic {
            leg: FusionLeg::Vector,
            detail: "vector hybrid leg panicked",
        })
    ));
    let failed = Some(Err(QueryError::Scan(ScanError::ZeroDimension)));
    match vector_leg_result::<u8>(failed, "no dimension") {
        Err(FusionError::Leg { leg: FusionLeg::Vector, kind: LegFailureKind::Scan, detail }) => {
            assert!(detail.contains("no dimension"))
        }
        other => panic!("{other:?}"),
    }
    assert!(matches!(
        vector_leg_result::<u8>(Some(Err(QueryError::Timeout { partial: false })), ""),
        Err(FusionError::Timeout { partial: false })
    ));
}

#[test]
fn text_counts_are_part_of_the_diagnostics() {
    let (mut flags, _, cancellation) = query();
    let mut materializer = open_text(cancellation, &mut flags, 0).expect("running");
    assert_eq!(materializer.counts.row_lookups, 0);
    materializer.counts = COUNTS;
    let vector =
        Store::search_with_text(vector_outcome(), &materializer, &mut flags, 0).expect("vector");
    assert_eq!(vector.diagnostics.materialization, Some(COUNTS));
    assert_eq!(vector.diagnostics.elapsed, 70);
    assert_eq!(vector.candidates.len(), 1);
    let lexical =
        Store::search_lexical_with_text(lexical_outcome(), &materializer, &mut flags, 0).expect("lexical");
    assert_eq!(lexical.diagnostics.materialization, Some(COUNTS));
    assert_eq!(lexical.candidates, lexical_outcome().candidates);
    let hybrid = Store::search_hybrid_with_text(hybrid_outcome(), &materializer, &mut flags, 0, "")
        .expect("hybrid");
    assert_eq!(hybrid.diagnostics.materialization, Some(COUNTS));
    assert_eq!(hybrid.hits, hybrid_outcome().hits);
}

#[test]
fn a_stop_behind_the_callers_work_fails_the_query() {
    let (mut flags, token, cancellation) = query();
    let materializer = open_text(cancellation, &mut flags, 0).expect("running");
    token.cancel(&mut flags);
    let cancelled = QueryError::Cancelled { partial: false };
    assert_eq!(open_text(cancellation, &mut flags, 0).map(|_| ()), Err(cancelled));
    assert_eq!(
        Store::search_with_text(vector_outcome(), &materializer, &mut flags, 0).map(|_| ()),
        Err(QueryError::Cancelled { partial: false })
    );
    assert_eq!(
        Store::search_lexical_with_text(lexical_outcome(), &materializer, &mut flags, 0).map(|_| ()),
        Err(StoreLexicalError::Query(QueryError::Cancelled { partial: false }))
    );
    assert!(matches!(
        Store::search_hybrid_with_text(hybrid_outcome(), &materializer, &mut flags, 0, ""),
        Err(FusionError::Cancelled { partial: false })
    ));
    let (mut flags, _, cancellation) = query();
    flags.settle(cancellation.lease_flag, StopState::Cancelled);
    assert_eq!(
        open_text(cancellation, &mut flags, 0).map(|_| ()),
        Err(QueryError::ReadCancelled { partial: false })
    );
}

fn ended(
    ran: DeferredQuery<u8, u8, &'static str>,
    cancellation: &QueryCancellation,
    flags: &mut StopFlags,
    now: u128,
) -> Result<u8, HybridPreparationError<&'static str>> {
    Store::search_hybrid_with_text_deferred(ran, cancellation, flags, now)
}

#[test]
fn a_deferred_query_keeps_the_failure_of_its_search() {
    let (mut flags, _, cancellation) = query();
    assert!(matches!(
        ended(DeferredQuery::Searched(Ok(3)), &cancellation, &mut flags, 0),
        Ok(3)
    ));
    let failed = DeferredQuery::Searched(Err(FusionError::Timeout { partial: false }));
    assert!(matches!(
        ended(failed, &cancellation, &mut flags, 0),
        Err(HybridPreparationError::Search(FusionError::Timeout { partial: false }))
    ));
    let asked: HybridPreparationError<u8> =
        HybridPreparationError::from_query(QueryError::Timeout { partial: false }, "");
    assert!(matches!(
        asked,
        HybridPreparationError::Search(FusionError::Timeout { partial: false })
    ));
}

#[test]
fn astra_19_preparation_cancel_preserves_control_error() {
    let (mut flags, token, cancellation) = query();
    let prepare = |flags: &mut StopFlags| -> Result<u8, &'static str> {
        token.cancel(flags);
        Err("late embedding failure")
    };
    let failure = prepare(&mut flags).err();
    let result = ended(
        DeferredQuery::Unprepared { failure, lexical: Ok(1) },
        &cancellation,
        &mut flags,
        0,
    );
    assert!(matches!(
        result,
        Err(HybridPreparationError::Search(FusionError::Cancelled { partial: false }))
    ));
}

#[test]
fn astra_19_embed_failure_joins_lexical_work() {
    for mode in ["error", "panic", "timeout", "close"] {
        let mut flags = StopFlags::new();
        let mut clock = ManualMonotonicClock::starting_at(0);
        let deadline = Deadline::after_with_test_clock(1_000_000_000, &clock, &mut flags)
            .expect("deadline");
        let lease = flags.add_flag();
        let cancellation = QueryCancellation::new(QueryControl::Deadline(deadline), lease);
        let failure = if mode == "panic" { None } else { Some("fake embedding failure") };
        if mode == "timeout" {
            clock.advance(2_000_000_000);
        }
        if mode == "close" {
            flags.settle(lease, StopState::Cancelled);
        }
        let result = ended(
            DeferredQuery::Unprepared { failure, lexical: Ok(1) },
            &cancellation,
            &mut flags,
            clock.now(),
        );
        match mode {
            "error" => assert!(matches!(
                result,
                Err(HybridPreparationError::Preparation("fake embedding failure"))
            )),
            "panic" => assert!(matches!(
                result,
                Err(HybridPreparationError::Search(FusionError::LegPanic {
                    leg: FusionLeg::Vector,
                    ..
                }))
            )),
            "timeout" => assert!(matches!(
                result,
                Err(HybridPreparationError::Search(FusionError::Timeout { partial: false }))
            )),
            _ => assert!(matches!(
                result,
                Err(HybridPreparationError::Search(FusionError::ReadCancelled { partial: false }))
            )),
        }
    }
}

#[test]
fn a_stopped_lexical_leg_is_reported_without_a_vector() {
    let (mut flags, _, cancellation) = query();
    let stopped = DeferredQuery::Unprepared {
        failure: Some("no embedding"),
        lexical: Err(FusionError::Timeout { partial: false }),
    };
    assert!(matches!(
        ended(stopped, &cancellation, &mut flags, 0),
        Err(HybridPreparationError::Search(FusionError::Timeout { partial: false }))
    ));
    let failed = DeferredQuery::Unprepared {
        failure: Some("no embedding"),
        lexical: Err(FusionError::LegPanic { leg: FusionLeg::Lexical, detail: "panicked" }),
    };
    assert!(matches!(
        ended(failed, &cancellation, &mut flags, 0),
        Err(HybridPreparationError::Preparation("no embedding"))
    ));
}

#[test]
fn materialization_events_are_counted_apart() {
    let mut counters = MaterializationTestCounters::new();
    counters.admitted();
    counters.version_looked_up();
    counters.row_requested();
    counters.row_requested();
    assert_eq!(
        counters,
        MaterializationTestCounters {
            admissions: 1,
            reverse_version_lookups: 1,
            direct_row_lookups: 2,
        }
    );
}
