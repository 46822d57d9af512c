use zeppelin_embed::accounting::{Accounted, Accounting, AllocationComponent};
use zeppelin_embed::candidates::{GraphSearchStats, ScanStats, SearchCounters};
use zeppelin_embed::error::{QueryError, ScanError, StoreErrorKind};
use zeppelin_embed::fusion::{
    CandidateCoverage, FusionError, FusionOutcome, FusionReport, FusionTermination,
    HybridProvenance, LegFailureKind, ScorePrecision,
};
use zeppelin_embed::hybrid::{
    fuse_round, hybrid_window, reserve_candidate_buffer, round_provenance, HybridRoundBuffers,
    HybridWindow, HybridWork, UnionFusion, VectorDiagnosticsFlags, HYBRID_WINDOW_FLOOR,
};
use zeppelin_embed::ids::DocId;
use zeppelin_embed::observations::{
    begin_hybrid_score_test_observations, take_hybrid_score_test_observations,
    HybridScoreObserver,
};
use zeppelin_embed::round::{HybridRound, LexicalBounds};
use zeppelin_embed::score::Double;

#[test]
fn astra_09_candidate_capacity_is_accounted_through_reuse_and_failed_growth() {
    let mut accounting = Accounting::new(u64::MAX, u64::MAX);
    let mut observer = HybridScoreObserver::new();
    let mut buffers = HybridRoundBuffers::new();
    buffers
        .prepare(50, 50, &mut accounting, &mut observer)
        .expect("first window");
    let first = buffers.resident_bytes;
    assert!(first > 0);
    assert_eq!(accounting.audit().temporary_bytes, first);
    let pointer = buffers.vector.items.as_ptr();
    buffers
        .prepare(25, 25, &mut accounting, &mut observer)
        .expect("smaller window");
    assert_eq!(
        buffers.vector.items.as_ptr(),
        pointer,
        "same allocation reused"
    );
    assert_eq!(buffers.resident_bytes, first);
    buffers
        .prepare(100, 100, &mut accounting, &mut observer)
        .expect("wider window");
    assert_eq!(buffers.resident_bytes, first * 2);
    assert!(
        buffers.peak_bytes > buffers.resident_bytes,
        "old allocation charged during growth"
    );
    assert_eq!(accounting.audit().temporary_bytes, buffers.resident_bytes);
    buffers.release(&mut accounting);
    assert_eq!(accounting.audit().temporary_bytes, 0);

    // Four old bytes plus eight replacement bytes need twelve, even though
    // only eight will remain. A failed reservation leaves the old owner intact.
    let mut accounting = Accounting::new(u64::MAX, 11);
    let mut buffer = Accounted::<u8>::unaccounted_empty(AllocationComponent::Temporary);
    let (mut resident, mut peak) = (0, 0);
    reserve_candidate_buffer(&mut buffer, 4, &mut accounting, &mut resident, &mut peak)
        .expect("four bytes");
    buffer.push(7).expect("one element");
    let error = reserve_candidate_buffer(&mut buffer, 8, &mut accounting, &mut resident, &mut peak)
        .err()
        .expect("growth refused");
    assert!(matches!(
        error,
        FusionError::Leg {
            kind: LegFailureKind::Store(StoreErrorKind::BudgetExceeded),
            ..
        }
    ));
    assert_eq!(buffer.capacity(), 4);
    assert!(buffer.is_empty(), "failed round publishes no elements");
    assert_eq!(accounting.audit().temporary_bytes, 4);
    buffer.release(&mut accounting);
    assert_eq!(accounting.audit().temporary_bytes, 0);
}

#[test]
fn astra_01_ann_boundary_is_not_an_unseen_certificate() {
    // Document 3 is the nearest row but the approximate producer omitted it.
    // All supplied distances remain exactly right.
    let corpus = [(1, 1.0_f64), (2, 4.0), (3, 0.0)];
    let reference = corpus
        .iter()
        .min_by(|left, right| left.1.total_cmp(&right.1))
        .expect("nonempty reference")
        .0;
    assert_eq!(reference, 3);
    for next in [None, Some(9.0_f64)] {
        // What bounded fusion makes of the two supplied documents: the list is
        // at its end, or its next distance cannot displace the winner.
        let termination = if next.is_none() {
            FusionTermination::Exhausted
        } else {
            FusionTermination::WindowStable
        };
        let fused = FusionOutcome {
            hits: vec![DocId::new(1)],
            report: FusionReport {
                termination,
                rounds: 1,
                budget_exhausted: false,
            },
        };
        let outcome = fuse_round(
            UnionFusion { outcome: Ok(fused), start_capacity: 0, peak_bytes: 0 },
            HybridProvenance {
                vector_precision: ScorePrecision::Exact,
                vector_coverage: CandidateCoverage::Approximate,
                lexical_coverage: CandidateCoverage::Exhaustive,
                cross_scores_complete: true,
            },
            false,
            &mut HybridScoreObserver::new(),
        )
        .expect("fused");
        assert_eq!(
            *outcome.hits.first().expect("supplied winner"),
            DocId::new(1)
        );
        assert_ne!(
            *outcome.hits.first().expect("supplied winner"),
            DocId::new(reference)
        );
        assert_eq!(
            outcome.report.termination,
            FusionTermination::ApproximateCandidates,
            "an absent next item or an exact retained boundary cannot certify the missing winner"
        );
    }
}

#[test]
fn each_preparation_and_fusion_is_observed() {
    let mut accounting = Accounting::new(u64::MAX, u64::MAX);
    let mut observer = HybridScoreObserver::new();
    let mut buffers = HybridRoundBuffers::new();
    begin_hybrid_score_test_observations(&mut observer);
    buffers.prepare(2, 3, &mut accounting, &mut observer).expect("first");
    let first_peak = buffers.peak_bytes;
    buffers.prepare(1, 1, &mut accounting, &mut observer).expect("second");
    assert!(buffers.prepare(usize::MAX, 1, &mut accounting, &mut observer).is_err());
    let provenance = HybridProvenance {
        vector_precision: ScorePrecision::Exact,
        vector_coverage: CandidateCoverage::Exhaustive,
        lexical_coverage: CandidateCoverage::Exhaustive,
        cross_scores_complete: true,
    };
    let fused = FusionOutcome {
        hits: vec![DocId::new(4)],
        report: FusionReport {
            termination: FusionTermination::Exhausted,
            rounds: 1,
            budget_exhausted: false,
        },
    };
    let outcome = fuse_round(
        UnionFusion { outcome: Ok(fused), start_capacity: 6, peak_bytes: 480 },
        provenance,
        true,
        &mut observer,
    )
    .expect("fused");
    assert_eq!(outcome.report.termination, FusionTermination::Exhausted);
    let failed = fuse_round(
        UnionFusion {
            outcome: Err(FusionError::Timeout { partial: false }),
            start_capacity: 9,
            peak_bytes: 900,
        },
        provenance,
        true,
        &mut observer,
    );
    assert!(matches!(failed, Err(FusionError::Timeout { partial: false })));
    let seen = take_hybrid_score_test_observations(&mut observer);
    assert_eq!(seen.candidate_start_capacities, vec![(0, 0), (5, 5), (5, 5)]);
    assert_eq!(seen.candidate_peak_bytes, first_peak);
    assert_eq!(seen.union_start_capacities, vec![6, 9]);
    assert_eq!(seen.union_peak_bytes, 480);
}

#[test]
fn astra_01_exact_scores_do_not_imply_complete_candidates() {
    // Three exactly scored rows, of which the zero-distance winner was dropped,
    // so membership is approximate.
    let supplied = VectorDiagnosticsFlags {
        approximate: true,
        exact_rescore: true,
    };
    let provenance = round_provenance(supplied, 2, 0, 50);
    assert_eq!(provenance.vector_precision, ScorePrecision::Exact);
    assert_eq!(provenance.vector_coverage, CandidateCoverage::Approximate);
    assert_eq!(provenance.lexical_coverage, CandidateCoverage::Exhaustive);
    assert!(provenance.cross_scores_complete);
}

#[test]
fn astra_00_all_hybrid_rounds_contribute_work() {
    let caller = 7_u64;
    let mut work = HybridWork::new();
    // Three four-dimensional rows, then five six-dimensional rows; lexical work
    // is disjoint.
    for (dims, bytes, docs, postings, traversals, rescored) in
        [(12, 48, 3, 7, 1, 2), (30, 120, 5, 11, 2, 4)]
    {
        let mut graph = GraphSearchStats::zero();
        graph.segments_traversed = traversals;
        graph.candidates_rescored = rescored;
        work.complete_round(
            &ScanStats {
                dims_touched: dims,
                bytes_read: bytes,
                threads_used: 1,
                worker_thread_ids: vec![caller],
            },
            graph,
            SearchCounters {
                docs_evaluated: docs,
                postings_decoded: postings,
                blocks_decoded: 1,
                blocks_skipped: 2,
            },
        )
        .expect("completed round receipt");
    }
    assert_eq!(
        work.scan.dims_touched, 42,
        "both round receipts must survive"
    );
    assert_eq!(work.scan.bytes_read, 168);
    assert_eq!(work.scan.worker_thread_ids, vec![caller]);
    assert_eq!(
        work.scan.threads_used, 1,
        "count distinct executors, not round uses"
    );
    assert_eq!(work.graph.segments_traversed, 3);
    assert_eq!(work.graph.candidates_rescored, 6);
    assert_eq!(work.lexical.docs_evaluated, 8);
    assert_eq!(work.lexical.postings_decoded, 18);
    assert_eq!(work.lexical.blocks_decoded, 2);
    assert_eq!(work.lexical.blocks_skipped, 4);
}

#[test]
fn hybrid_window_is_clamped_between_k_and_the_corpus() {
    assert_eq!(
        hybrid_window(10, 4_096).expect("window"),
        HybridWindow {
            width: HYBRID_WINDOW_FLOOR
        },
        "the floor dominates a small k on a large corpus"
    );
    assert_eq!(
        hybrid_window(40, 4_096).expect("window").width,
        200,
        "the per-k term dominates once it passes the floor"
    );
    assert_eq!(
        hybrid_window(3, 2).expect("window").width,
        2,
        "the corpus clamps the floor down"
    );
    assert_eq!(
        hybrid_window(4_096, 4_096).expect("window").width,
        4_096,
        "a k at the corpus size still fits inside the corpus"
    );
    assert_eq!(
        hybrid_window(0, 9).expect("window").width,
        0,
        "k of zero asks the producers for nothing"
    );
    assert!(
        matches!(
            hybrid_window(usize::MAX, 9),
            Err(FusionError::Leg {
                kind: LegFailureKind::Scan,
                ..
            })
        ),
        "an unrepresentable window is typed, never a panic"
    );
}

fn round_of(vector_scores_computed: usize, lexical_counters: SearchCounters) -> HybridRound {
    HybridRound {
        addresses: None,
        vector_bounds: None,
        lexical_bounds: LexicalBounds {
            max_bm25: Double { bits: 1.0_f64.to_bits() },
            next_unseen_bm25: None,
        },
        cross_filled_vector: 5,
        cross_filled_lexical: 6,
        lexical_counters,
        vector_scores_computed,
        lexical_scores_computed: 6,
    }
}

#[test]
fn scores_across_the_windows_are_work() {
    let mut work = HybridWork::new();
    let mut counters = SearchCounters::zero();
    counters.docs_evaluated = 9;
    work.complete_fill(&round_of(5, counters), 6).expect("fill");
    work.complete_fill(&round_of(0, counters), 6).expect("nothing was computed");
    assert_eq!(work.scan.dims_touched, 30);
    assert_eq!(work.scan.bytes_read, 120);
    assert_eq!(work.scan.threads_used, 0);
    assert_eq!(work.lexical.docs_evaluated, 18);
    assert_eq!(work.graph, GraphSearchStats::zero());
    let overflow = work.complete_fill(&round_of(usize::MAX, counters), 1);
    assert_eq!(overflow, Err(QueryError::Scan(ScanError::ArithmeticOverflow)));
    assert_eq!(work.scan.dims_touched, 30);
    assert_eq!(work.scan.bytes_read, 120);
    assert_eq!(work.lexical.docs_evaluated, 18);
}
