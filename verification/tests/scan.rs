use zeppelin_embed::accounting::Accounting;
use zeppelin_embed::candidates::{
    GraphSearchStats, ScanCandidate, ScanOutcome, ScanStats, SearchCandidate,
};
use zeppelin_embed::clock::ManualMonotonicClock;
use zeppelin_embed::control::{
    CancelToken, Deadline, QueryCancellation, QueryControl, StopFlags, StopState,
};
use zeppelin_embed::corpus::{SegmentFacts, UnreadDocument};
use zeppelin_embed::error::{
    AdaptiveEfError, Geometry, GraphSearchError, IoError, QuantError, QueryError, RescoreError,
    ScanError, SegmentError, StoreError,
};
use zeppelin_embed::exhaustive::{
    check_scan_shape, empty_scan, live_row_indices, plan_squared_l2, rank_rescored,
    scan_squared_l2, RescoreCheckError, RescoredHit, RescoredRows, SquaredL2Plan,
};
use zeppelin_embed::fusion::{FusionError, FusionLeg};
use zeppelin_embed::graph_cache::{
    CheckoutStep, GraphEntries, NormRange, ScratchAllocation, SegmentGraphSearchCache,
};
use zeppelin_embed::ids::{DocId, DocumentVersion, GlobalRowId, Revision, RowSource, SegmentId};
use zeppelin_embed::options::{GraphSearchOptions, GraphSearchProfile, SearchTier};
use zeppelin_embed::plan::{
    auto_uses_full_precision, graph_round_ef, graph_round_is_worth_it, plans_are_approximate,
    sealed_scan_reason, ExplicitScanTier, ScanReason, SegmentPlan, SegmentTier,
};
use zeppelin_embed::poll::{board_poll, StopPoll, StopSource};
use zeppelin_embed::pool::{
    assign_exact, completion_stop, exact_workers, gather_partitions, lexical_reply, merge_exact,
    merge_partitions, partition_row_count, reserve_exact_lane, scan_workers, stop_and_join,
    wait_step, worker_started, Completion, ExactScanError, ExactSlot, LexicalReply,
    LexicalWorkerFault, PartitionScan, RowRange, WaitStep,
};
use zeppelin_embed::rank::{rank_items, truncate_to_k_with_score_ties};
use zeppelin_embed::rescored_scan::{
    accumulate, complete_rescoring, rescore, select_rows, set_exact_scores, ExactScore, Rescored,
    ScanRescoreCounters, ScanRescoreOptions,
};
use zeppelin_embed::score::{Double, Score};
use zeppelin_embed::search::{
    fold_exact_vector_ceiling, fold_vector_ceiling, fold_worst_squared_l2,
    global_competitive_distance, map_graph_cache_error, map_graph_error, map_l2_rescore_error,
    map_scan_error, merge_store_outcome, missing_rescore_rows_error, norm_source,
    reserve_global_candidates, retain_global_top_k, validate_query, vector_fault_tier,
    GraphCacheError, GraphHit, NormSource, SearchTotals, SegmentGraphResult, VectorSearchTier,
};

fn score(value: f32) -> Score {
    Score { bits: value.to_bits() }
}

fn double(value: f64) -> Double {
    Double { bits: value.to_bits() }
}

fn row(row_id: usize, value: f32) -> ScanCandidate {
    ScanCandidate { row_id, score: score(value) }
}

fn overflow() -> QueryError {
    QueryError::Scan(ScanError::ArithmeticOverflow)
}

fn active_token() -> (StopFlags, QueryCancellation) {
    let mut flags = StopFlags::new();
    let token = CancelToken::new(&mut flags);
    let lease = flags.add_flag();
    (flags, QueryCancellation::new(QueryControl::Cancel(token), lease))
}

fn facts(rows: u32, scheme: u16, has_graph: bool) -> SegmentFacts {
    SegmentFacts {
        id: SegmentId { value: 1 },
        row_count: rows,
        dims: 4,
        scheme,
        has_graph,
        has_postings: false,
        documents: vec![None; rows as usize],
        alive: vec![true; rows as usize],
        texts: None,
    }
}

fn version(doc: u128) -> DocumentVersion {
    DocumentVersion::new(DocId::new(doc), Revision::new(1))
}

#[test]
fn rows_rank_by_score_and_then_by_row() {
    let mut rows = vec![row(4, -2.0), row(1, -1.0), row(3, -2.0), row(0, -3.0), row(9, 0.5)];
    rank_items(&mut rows);
    assert_eq!(
        rows,
        vec![row(9, 0.5), row(1, -1.0), row(3, -2.0), row(4, -2.0), row(0, -3.0)]
    );
    truncate_to_k_with_score_ties(&mut rows, 3);
    assert_eq!(rows, vec![row(9, 0.5), row(1, -1.0), row(3, -2.0), row(4, -2.0)]);
    truncate_to_k_with_score_ties(&mut rows, 0);
    assert!(rows.is_empty());
}

#[test]
fn a_query_vector_is_validated_value_by_value() {
    assert_eq!(validate_query(&vec![score(0.5), score(-1.0)], 2), Ok(()));
    assert_eq!(
        validate_query(&vec![], 2),
        Err(QueryError::Scan(ScanError::Quant(QuantError::EmptyVector)))
    );
    assert_eq!(
        validate_query(&vec![score(0.0); 3], 2),
        Err(QueryError::Scan(ScanError::Quant(QuantError::DimensionTooLarge {
            actual: 3,
            maximum: 2,
        })))
    );
    assert_eq!(
        validate_query(&vec![score(0.0), score(f32::NAN), score(f32::INFINITY)], 4),
        Err(QueryError::Scan(ScanError::Quant(QuantError::NonFinite { index: 1 })))
    );
}

#[test]
fn a_stop_is_reported_as_one_from_every_layer() {
    assert_eq!(
        map_scan_error(ScanError::Cancelled { partial: true }),
        QueryError::Cancelled { partial: true }
    );
    assert_eq!(
        map_scan_error(ScanError::Timeout { partial: false }),
        QueryError::Timeout { partial: false }
    );
    assert_eq!(
        map_scan_error(ScanError::ReadCancelled { partial: false }),
        QueryError::ReadCancelled { partial: false }
    );
    assert_eq!(
        map_scan_error(ScanError::WorkerPanicked),
        QueryError::Scan(ScanError::WorkerPanicked)
    );
    assert_eq!(
        map_graph_error(GraphSearchError::Timeout { partial: true }),
        QueryError::Timeout { partial: true }
    );
    assert_eq!(
        map_graph_error(GraphSearchError::Scan(ScanError::ZeroDimension)),
        QueryError::Scan(ScanError::ZeroDimension)
    );
    assert_eq!(
        map_graph_error(GraphSearchError::ExactRescoreUnavailable(
            Geometry::DistanceNotRepresentable(4)
        )),
        QueryError::Store(StoreError::Segment(SegmentError::Geometry(
            Geometry::DistanceNotRepresentable(4)
        )))
    );
    let below = GraphSearchError::AdaptiveEf(AdaptiveEfError::ExplicitBelowK { k: 4, ef: 2 });
    assert_eq!(map_graph_error(below.clone()), QueryError::Graph(below.clone()));
    assert_eq!(
        map_graph_cache_error(GraphCacheError::Search(GraphSearchError::Cancelled {
            partial: false
        })),
        QueryError::Cancelled { partial: false }
    );
    assert_eq!(
        map_graph_cache_error(GraphCacheError::Store(StoreError::Closing)),
        QueryError::Store(StoreError::Closing)
    );
}

#[test]
fn a_rescoring_failure_becomes_a_scan_failure() {
    let mapped = |error| match map_l2_rescore_error(error) {
        QueryError::Scan(inner) => inner,
        other => panic!("{other:?}"),
    };
    assert_eq!(mapped(RescoreError::ZeroDimension), ScanError::ZeroDimension);
    assert_eq!(
        mapped(RescoreError::QueryDimension { expected: 4, actual: 3 }),
        ScanError::RowDataLength { dimension: 4, actual: 3 }
    );
    assert_eq!(
        mapped(RescoreError::CandidateRowOutOfRange { position: 1, row_index: 8, row_count: 7 }),
        ScanError::RowDataLength { dimension: 7, actual: 8 }
    );
    assert_eq!(
        mapped(RescoreError::NonFiniteCoarseScore { index: 5 }),
        ScanError::NonFiniteScore { row_id: 5 }
    );
    assert_eq!(
        mapped(RescoreError::NonFiniteExactScore { row_index: 6 }),
        ScanError::NonFiniteScore { row_id: 6 }
    );
    assert_eq!(mapped(RescoreError::ZeroK), ScanError::ArithmeticOverflow);
    assert_eq!(
        missing_rescore_rows_error(SegmentId { value: 3 }, 9, 4),
        QueryError::Store(StoreError::Segment(SegmentError::Geometry(
            Geometry::ExactScoresUnavailable {
                segment: SegmentId { value: 3 },
                expected: 9,
                available: 4,
            }
        )))
    );
}

#[test]
fn every_tier_has_its_fault_tier() {
    assert_eq!(vector_fault_tier(SearchTier::Auto), VectorSearchTier::Auto);
    assert_eq!(vector_fault_tier(SearchTier::Exact), VectorSearchTier::Exact);
    assert_eq!(vector_fault_tier(SearchTier::Scan), VectorSearchTier::Scan);
    assert_eq!(
        vector_fault_tier(SearchTier::Graph(GraphSearchOptions::new(
            GraphSearchProfile::SiftClass
        ))),
        VectorSearchTier::Graph
    );
}

fn candidate(row_id: u32, value: f32) -> SearchCandidate {
    SearchCandidate {
        row_id: GlobalRowId::new(RowSource::Active, row_id),
        document: None,
        score: score(value),
        exact_score: true,
    }
}

#[test]
fn the_competitive_distance_is_that_of_the_last_kept_row() {
    let mut kept = vec![candidate(2, -4.0), candidate(1, -1.0), candidate(0, -9.0)];
    assert_eq!(global_competitive_distance(&kept, 4), None);
    retain_global_top_k(&mut kept, 2);
    assert_eq!(kept, vec![candidate(1, -1.0), candidate(2, -4.0)]);
    assert_eq!(global_competitive_distance(&kept, 2), Some(score(4.0)));
    assert_eq!(global_competitive_distance(&kept, 0), None);
    assert_eq!(global_competitive_distance(&vec![candidate(0, 3.0)], 1), None);
}

#[test]
fn room_for_candidates_is_asked_for_before_they_are_merged() {
    assert_eq!(reserve_global_candidates(0, true), Ok(()));
    assert_eq!(reserve_global_candidates(3, false), Ok(()));
    let needed = 3 * std::mem::size_of::<SearchCandidate>() as u64;
    assert_eq!(
        reserve_global_candidates(3, true),
        Err(QueryError::Store(StoreError::AllocationFailed {
            needed,
            component: "vector search global candidates",
        }))
    );
    assert_eq!(reserve_global_candidates(usize::MAX, true), Err(overflow()));
}

fn outcome(rows: &[(usize, f32)], dims: u64, worker: u64) -> ScanOutcome {
    ScanOutcome {
        candidates: rows.iter().map(|(id, value)| row(*id, *value)).collect(),
        worst_score: rows.iter().map(|(_, value)| score(*value)).last(),
        stats: ScanStats {
            dims_touched: dims,
            bytes_read: dims * 4,
            threads_used: 1,
            worker_thread_ids: vec![worker],
        },
    }
}

#[test]
fn a_source_is_merged_with_its_rows_documents_and_work() {
    let mut totals = SearchTotals::new();
    let documents = vec![Some(version(7)), None];
    let merged = merge_store_outcome(
        &mut totals,
        &outcome(&[(0, -1.0), (1, -2.0)], 8, 5),
        RowSource::Active,
        &documents,
        None,
        false,
        false,
    );
    assert_eq!(merged, Ok(()));
    let sealed = RowSource::Sealed(SegmentId { value: 2 });
    let merged = merge_store_outcome(
        &mut totals,
        &outcome(&[(3, -0.5)], 12, 5),
        sealed,
        &vec![],
        None,
        true,
        false,
    );
    assert_eq!(merged, Ok(()));
    assert_eq!(totals.dims_touched, 20);
    assert_eq!(totals.bytes_read, 80);
    assert_eq!(totals.worker_thread_ids, vec![5]);
    assert_eq!(totals.candidates.len(), 3);
    assert_eq!(totals.candidates[0].document, Some(version(7)));
    assert!(!totals.candidates[0].exact_score);
    assert_eq!(totals.candidates[2].row_id, GlobalRowId::new(sealed, 3));
    assert_eq!(totals.candidates[2].document, None);
    assert!(totals.candidates[2].exact_score);
    let refused = merge_store_outcome(
        &mut totals,
        &outcome(&[(0, -1.0)], u64::MAX / 4, 6),
        RowSource::Active,
        &vec![],
        None,
        true,
        false,
    );
    assert_eq!(refused, Err(overflow()));
}

#[test]
fn a_traversed_segment_gives_its_live_hits_and_a_pruned_one_none() {
    let mut totals = SearchTotals::new();
    let source = RowSource::Sealed(SegmentId { value: 4 });
    let mut stats = GraphSearchStats::zero();
    stats.segments_traversed = 1;
    let plan =
        SegmentPlan::unfiltered_graph(source, 3, None, 140, GraphSearchProfile::SiftClass);
    let traversed = SegmentGraphResult::Traversed {
        hits: vec![
            GraphHit { row_id: 2, score: score(-1.0) },
            GraphHit { row_id: 0, score: score(-2.0) },
        ],
        plan,
        dims_touched: 6,
        bytes_read: 24,
        caller_thread: 9,
        graph_stats: stats,
    };
    let merged = traversed
        .merge_into(&mut totals, &vec![false, true, true], source, &vec![], None, false)
        .expect("merged");
    assert!(merged.traversed);
    assert!(merged.plan.approximate());
    assert_eq!(totals.candidates.len(), 1);
    assert_eq!(totals.candidates[0].row_id, GlobalRowId::new(source, 2));
    assert_eq!(totals.worker_thread_ids, vec![9]);
    assert_eq!(totals.graph_stats.segments_traversed, 1);
    let mut pruned_stats = GraphSearchStats::zero();
    pruned_stats.segments_pruned_by_bound = 1;
    let pruned = SegmentGraphResult::Pruned {
        plan: SegmentPlan::unfiltered_pruned(source, 3),
        graph_stats: pruned_stats,
    };
    let merged = pruned
        .merge_into(&mut totals, &vec![true; 3], source, &vec![], None, true)
        .expect("merged");
    assert!(!merged.traversed);
    assert!(!merged.plan.approximate());
    assert_eq!(totals.candidates.len(), 1);
    assert_eq!(totals.graph_stats.segments_pruned_by_bound, 1);
}

#[test]
fn an_unread_document_fails_the_merge_at_its_hit() {
    let damaged = SegmentError::Other("damaged".to_owned());
    let unread = |hit| Some(UnreadDocument { hit, error: damaged.clone() });
    let failed = QueryError::Store(StoreError::Segment(damaged.clone()));
    let source = RowSource::Sealed(SegmentId { value: 4 });
    let mut totals = SearchTotals::new();
    let rows = outcome(&[(0, -1.0), (u32::MAX as usize + 1, -2.0), (2, -3.0)], 8, 5);
    let mut merge = |unread| {
        merge_store_outcome(&mut totals, &rows, source, &vec![], unread, true, false)
    };
    assert_eq!(merge(unread(0)), Err(failed.clone()));
    assert_eq!(merge(unread(1)), Err(overflow()));
    assert_eq!(merge(unread(2)), Err(overflow()));
    assert_eq!(merge(None), Err(overflow()));
    assert!(totals.candidates.is_empty());
    let traversed = || SegmentGraphResult::Traversed {
        hits: vec![
            GraphHit { row_id: 0, score: score(-1.0) },
            GraphHit { row_id: 1, score: score(-2.0) },
            GraphHit { row_id: 2, score: score(f32::NEG_INFINITY) },
        ],
        plan: SegmentPlan::unfiltered_pruned(source, 3),
        dims_touched: 1,
        bytes_read: 4,
        caller_thread: 1,
        graph_stats: GraphSearchStats::zero(),
    };
    let mut merge = |alive: [bool; 3], unread| {
        traversed()
            .merge_into(&mut totals, &alive.to_vec(), source, &vec![], unread, false)
            .map(|_| ())
    };
    assert_eq!(merge([true, true, false], unread(1)), Err(failed));
    assert_eq!(
        merge([true, true, true], unread(2)),
        Err(QueryError::Graph(GraphSearchError::Geometry(Geometry::DistanceNotRepresentable(2))))
    );
    assert_eq!(merge([true, false, false], unread(1)), Ok(()));
    assert_eq!(totals.candidates.len(), 1);
}

#[test]
fn the_ceiling_of_a_query_is_the_largest_finite_bound() {
    assert_eq!(fold_vector_ceiling(double(2.0), double(3.0)), Ok(double(3.0)));
    assert_eq!(fold_vector_ceiling(double(4.0), double(3.0)), Ok(double(4.0)));
    let not_finite = QueryError::Store(StoreError::Segment(SegmentError::Geometry(
        Geometry::NormEnclosureNotFinite,
    )));
    assert_eq!(
        fold_vector_ceiling(double(4.0), double(f64::INFINITY)),
        Err(not_finite.clone())
    );
    assert_eq!(
        fold_exact_vector_ceiling(Some(double(5.0)), vec![Ok(double(2.0)), Ok(double(7.5))]),
        Ok(double(7.5))
    );
    assert_eq!(fold_exact_vector_ceiling(None, vec![]), Ok(double(0.0)));
    assert_eq!(
        fold_exact_vector_ceiling(None, vec![Ok(double(1.0)), Err(overflow()), Err(not_finite)]),
        Err(overflow())
    );
}

#[test]
fn a_norm_enclosure_is_read_by_scheme() {
    assert_eq!(norm_source(4), Ok(NormSource::Factors));
    assert_eq!(norm_source(0), Ok(NormSource::ExactRows));
    assert_eq!(norm_source(2), Ok(NormSource::ExactRows));
    assert_eq!(
        norm_source(1),
        Err(QueryError::Store(StoreError::Segment(SegmentError::Geometry(
            Geometry::NormEnclosureScheme(1)
        ))))
    );
}

#[test]
fn the_farthest_distance_is_known_only_where_every_row_was_visited() {
    let mut worst = None;
    let mut exhaustive = true;
    fold_worst_squared_l2(&mut worst, &mut exhaustive, Some(double(2.0)), 1);
    fold_worst_squared_l2(&mut worst, &mut exhaustive, Some(double(1.0)), 1);
    fold_worst_squared_l2(&mut worst, &mut exhaustive, None, 0);
    assert_eq!((worst, exhaustive), (Some(double(2.0)), true));
    fold_worst_squared_l2(&mut worst, &mut exhaustive, None, 3);
    assert_eq!((worst, exhaustive), (Some(double(2.0)), false));
}

#[test]
fn a_scan_says_why_it_was_one() {
    let small = facts(10, 4, false);
    let graph = facts(10, 4, true);
    let asked = Some(ScanReason::FullMaterialization);
    assert_eq!(sealed_scan_reason(&graph, 5, Some(SearchTier::Exact), asked), asked.unwrap());
    assert_eq!(
        sealed_scan_reason(&small, 5, Some(SearchTier::Exact), asked),
        ScanReason::ExplicitTier(ExplicitScanTier::Exact)
    );
    assert_eq!(
        sealed_scan_reason(&small, 5, Some(SearchTier::Scan), None),
        ScanReason::ExplicitTier(ExplicitScanTier::Scan)
    );
    assert_eq!(
        sealed_scan_reason(&small, 11, Some(SearchTier::Auto), None),
        ScanReason::BelowGraphThreshold { rows: 10, min_rows: 11 }
    );
    assert_eq!(sealed_scan_reason(&small, 10, None, None), ScanReason::GraphPending);
}

#[test]
fn only_a_traversal_makes_a_plan_approximate() {
    let source = RowSource::Active;
    let scan =
        SegmentPlan::unfiltered_scan(source, SegmentTier::ActiveScan, 2, ScanReason::ActiveSegment);
    let pruned = SegmentPlan::unfiltered_pruned(source, 2);
    let graph = SegmentPlan::unfiltered_graph(source, 2, None, 140, GraphSearchProfile::SiftClass);
    assert!(!plans_are_approximate(&vec![]));
    assert!(!plans_are_approximate(&vec![scan, pruned]));
    assert!(plans_are_approximate(&vec![scan, graph]));
}

#[test]
fn a_round_leaves_the_graph_at_a_quarter_of_the_corpus() {
    assert_eq!(graph_round_ef(1), 140);
    assert_eq!(graph_round_ef(35), 140);
    assert_eq!(graph_round_ef(36), 144);
    assert_eq!(graph_round_ef(usize::MAX), usize::MAX);
    assert!(graph_round_is_worth_it(35, 560));
    assert!(!graph_round_is_worth_it(36, 560));
    assert!(!graph_round_is_worth_it(1, 559));
    assert!(!graph_round_is_worth_it(400, 560));
    assert!(graph_round_is_worth_it(usize::MAX, 0));
}

#[test]
fn mixed_precision_is_avoided() {
    assert!(auto_uses_full_precision(&vec![facts(1, 4, true)], 0));
    assert!(auto_uses_full_precision(&vec![facts(1, 0, false)], 1));
    assert!(auto_uses_full_precision(&vec![facts(1, 0, false), facts(2, 2, false)], 0));
    assert!(!auto_uses_full_precision(&vec![facts(1, 0, false), facts(0, 2, false)], 0));
    assert!(!auto_uses_full_precision(&vec![facts(1, 4, false)], 3));
}

#[test]
fn an_exhaustive_scan_checks_its_shape() {
    assert_eq!(check_scan_shape(4, 3, 12), Ok(()));
    assert_eq!(check_scan_shape(0, 3, 0), Err(QueryError::Scan(ScanError::ZeroDimension)));
    assert_eq!(
        check_scan_shape(4, 3, 13),
        Err(QueryError::Scan(ScanError::RowDataLength { dimension: 4, actual: 13 }))
    );
    assert_eq!(check_scan_shape(2, usize::MAX, 12), Err(overflow()));
}

#[test]
fn an_exhaustive_scan_ranks_every_live_row() {
    let (mut flags, cancellation) = active_token();
    let clock = ManualMonotonicClock::new();
    let alive = vec![true, false, true, true];
    assert_eq!(
        live_row_indices(4, &alive, &mut board_poll(cancellation, &mut flags, &clock)),
        Ok(vec![0, 2, 3])
    );
    let hits: Vec<RescoredHit> = [(0, -3.0), (2, -1.0), (3, -1.0)]
        .iter()
        .map(|(row_index, value)| RescoredHit { row_index: *row_index, score: score(*value) })
        .collect();
    let scanned = rank_rescored(&hits, 3, 5, 1, 8).expect("scanned");
    assert_eq!(scanned.candidates, vec![row(2, -1.0), row(3, -1.0)]);
    assert_eq!(scanned.worst_score, Some(score(-3.0)));
    assert_eq!(scanned.stats.dims_touched, 15);
    assert_eq!(scanned.stats.bytes_read, 60);
    assert_eq!(scanned.stats.worker_thread_ids, vec![8]);
    let broken = vec![
        RescoredHit { row_index: 4, score: score(-1.0) },
        RescoredHit { row_index: 6, score: score(f32::NEG_INFINITY) },
        RescoredHit { row_index: 5, score: score(f32::NAN) },
    ];
    assert_eq!(
        rank_rescored(&broken, 3, 5, 1, 8).map(|_| ()),
        Err(QueryError::Scan(ScanError::NonFiniteScore { row_id: 6 }))
    );
    assert_eq!(
        rank_rescored(&hits, usize::MAX, 5, 1, 8).map(|_| ()),
        Err(overflow())
    );
    let empty = empty_scan(8);
    assert!(empty.candidates.is_empty());
    assert_eq!(empty.worst_score, None);
    assert_eq!(empty.stats.threads_used, 1);
}

#[test]
fn gathering_live_rows_notices_a_stop() {
    let clock = ManualMonotonicClock::new();
    let (mut flags, cancellation) = active_token();
    if let QueryControl::Cancel(token) = cancellation.control {
        token.cancel(&mut flags);
    }
    assert_eq!(
        live_row_indices(4, &vec![true; 4], &mut board_poll(cancellation, &mut flags, &clock)),
        Err(QueryError::Cancelled { partial: false })
    );
    let mut flags = StopFlags::new();
    let mut late = ManualMonotonicClock::starting_at(10);
    let deadline = Deadline::after_with_test_clock(5, &late, &mut flags).expect("deadline");
    let lease = flags.add_flag();
    let timed = QueryCancellation::new(QueryControl::Deadline(deadline), lease);
    assert_eq!(
        live_row_indices(1, &vec![true], &mut board_poll(timed, &mut flags, &late)),
        Ok(vec![0])
    );
    late.advance(5);
    assert_eq!(
        live_row_indices(1, &vec![true], &mut board_poll(timed, &mut flags, &late)),
        Err(QueryError::Timeout { partial: false })
    );
    flags.settle(lease, StopState::Cancelled);
    assert_eq!(
        live_row_indices(1, &vec![true], &mut board_poll(timed, &mut flags, &late)),
        Err(QueryError::ReadCancelled { partial: false })
    );
}

#[test]
fn a_small_exact_scan_has_one_worker() {
    assert_eq!(exact_workers(8, 255, 4_096, 0), 1);
    assert_eq!(exact_workers(8, 256, 1_023, 0), 1);
    assert_eq!(exact_workers(8, 256, 1_024, 0), 4);
    assert_eq!(exact_workers(3, 256, 1_024, 0), 3);
    assert_eq!(exact_workers(8, 256, 1_024, 2), 2);
    assert_eq!(exact_workers(0, 256, 1_024, 2), 1);
    assert_eq!(exact_workers(8, usize::MAX, 2, 0), 4);
}

#[test]
fn lanes_are_counted_round_and_round() {
    let mut next = u64::MAX - 1;
    assert_eq!(reserve_exact_lane(&mut next, 8, 0), u64::MAX - 1);
    assert_eq!(next, 2);
    assert_eq!(reserve_exact_lane(&mut next, 8, 1), 2);
    assert_eq!(next, 3);
    assert_eq!(reserve_exact_lane(&mut next, 0, 3), 3);
    assert_eq!(next, 4);
}

#[test]
fn a_scan_has_no_more_workers_than_work() {
    assert_eq!(scan_workers(8, 0, 20), 8);
    assert_eq!(scan_workers(8, 3, 20), 3);
    assert_eq!(scan_workers(8, 12, 20), 8);
    assert_eq!(scan_workers(8, 0, 5), 5);
    assert_eq!(scan_workers(8, 0, 0), 1);
}

#[test]
fn the_parts_of_a_scan_cover_every_row_once() {
    assert_eq!(
        partition_row_count(10, 4),
        Ok(vec![
            RowRange { start: 0, end: 2 },
            RowRange { start: 2, end: 5 },
            RowRange { start: 5, end: 7 },
            RowRange { start: 7, end: 10 },
        ])
    );
    assert_eq!(partition_row_count(10, 0), Ok(vec![]));
    assert_eq!(partition_row_count(usize::MAX, 2), Err(ScanError::ArithmeticOverflow));
    assert_eq!(
        assign_exact(4, 2, 3, 5),
        Ok(vec![
            ExactSlot { worker: 2, rows: RowRange { start: 0, end: 2 } },
            ExactSlot { worker: 0, rows: RowRange { start: 2, end: 4 } },
        ])
    );
    assert_eq!(assign_exact(4, 2, 0, 5), Err(overflow()));
    assert_eq!(assign_exact(usize::MAX, 2, 3, 5), Err(overflow()));
}

#[test]
fn each_slot_counts_once() {
    let mut completion: Completion<u8> = Completion::new(2, 0);
    completion.admit_slot();
    completion.admit_slot();
    completion.complete(1, 4);
    completion.complete(1, 5);
    completion.complete(7, 6);
    assert_eq!(completion.remaining, 1);
    assert_eq!(completion.results, vec![None, Some(4)]);
    completion.complete(0, 3);
    assert_eq!(completion.remaining, 0);
    assert_eq!(completion.results, vec![Some(3), Some(4)]);
}

#[test]
fn the_caller_owns_the_timing_of_the_deadline() {
    let mut flags = StopFlags::new();
    let clock = ManualMonotonicClock::starting_at(100);
    let deadline = Deadline::after_with_test_clock(50, &clock, &mut flags).expect("deadline");
    let control = QueryControl::Deadline(deadline);
    assert_eq!(wait_step(&control, &mut flags, 100, 0), WaitStep::Ready);
    assert_eq!(wait_step(&control, &mut flags, 120, 1), WaitStep::WaitUpTo(30));
    assert_eq!(wait_step(&control, &mut flags, 150, 1), WaitStep::Wait);
    assert_eq!(flags.state(deadline.flag), StopState::TimedOut);
    let lease = flags.add_flag();
    let cancellation = QueryCancellation::new(control, lease);
    assert_eq!(
        completion_stop(&cancellation, &flags),
        Err(QueryError::Timeout { partial: false })
    );
    flags.settle(lease, StopState::Cancelled);
    assert_eq!(
        completion_stop(&cancellation, &flags),
        Err(QueryError::ReadCancelled { partial: false })
    );
    let (mut flags, cancellation) = active_token();
    assert_eq!(wait_step(&cancellation.control, &mut flags, u128::MAX, 1), WaitStep::Wait);
    assert_eq!(completion_stop(&cancellation, &flags), Ok(()));
}

fn part(rows: &[(usize, f32)], worker: u64) -> PartitionScan {
    PartitionScan {
        candidates: rows.iter().map(|(id, value)| row(*id, *value)).collect(),
        dims_touched: 4,
        bytes_read: 16,
        worker_thread_id: worker,
    }
}

#[test]
fn parts_are_gathered_in_slot_order() {
    let gathered = gather_partitions(vec![Some(Ok(part(&[(0, -1.0)], 3))), Some(Ok(part(&[], 4)))])
        .expect("parts");
    assert_eq!(gathered.len(), 2);
    assert_eq!(gathered[0].candidates, vec![row(0, -1.0)]);
    assert_eq!(
        gather_partitions(vec![
            Some(Ok(part(&[], 1))),
            Some(Err(ScanError::WorkerPanicked)),
            None,
        ])
        .map(|_| ()),
        Err(QueryError::Scan(ScanError::WorkerPanicked))
    );
    assert_eq!(
        gather_partitions(vec![None, Some(Err(ScanError::WorkerPanicked))]).map(|_| ()),
        Err(QueryError::Store(StoreError::Synchronization { component: "query result slot" }))
    );
}

#[test]
fn a_parted_scan_is_that_of_one_worker() {
    let parts = vec![
        part(&[(0, -2.0), (1, -5.0)], 7),
        part(&[(2, -1.0), (3, -2.0)], 8),
        part(&[(4, -2.0)], 7),
    ];
    let merged = merge_partitions(&parts, 5, 3, 2).expect("merged");
    assert_eq!(
        merged.candidates,
        vec![row(2, -1.0), row(0, -2.0), row(3, -2.0), row(4, -2.0)]
    );
    assert_eq!(merged.stats.dims_touched, 12);
    assert_eq!(merged.stats.bytes_read, 48);
    assert_eq!(merged.stats.threads_used, 3);
    assert_eq!(merged.stats.worker_thread_ids, vec![7, 8]);
    let mut huge = part(&[], 1);
    huge.bytes_read = u64::MAX;
    assert_eq!(
        merge_partitions(&vec![huge, part(&[], 1)], 5, 2, 2).map(|_| ()),
        Err(ScanError::ArithmeticOverflow)
    );
}

#[test]
fn exact_parts_merge_whatever_completed_first() {
    let merged = merge_exact(
        vec![
            Some(Ok(outcome(&[(0, -2.0), (1, -9.0)], 8, 3))),
            Some(Ok(outcome(&[(2, -1.0), (3, -2.0)], 8, 4))),
        ],
        2,
        Ok(()),
    )
    .expect("merged");
    assert_eq!(merged.candidates, vec![row(2, -1.0), row(0, -2.0), row(3, -2.0)]);
    assert_eq!(merged.worst_score, Some(score(-9.0)));
    assert_eq!(merged.stats.threads_used, 2);
    let narrowing = |row_id, value: f64| {
        Some(Err(ExactScanError::Narrowing { row_id, score: double(value) }))
    };
    assert_eq!(
        merge_exact(
            vec![narrowing(8, -1e300), narrowing(5, -1e200), narrowing(2, -1e200)],
            2,
            Ok(()),
        )
        .map(|_| ()),
        Err(QueryError::Scan(ScanError::NonFiniteScore { row_id: 2 }))
    );
    assert_eq!(
        merge_exact(
            vec![narrowing(8, -1e300), None, Some(Err(ExactScanError::Query(overflow())))],
            2,
            Ok(()),
        )
        .map(|_| ()),
        Err(QueryError::Store(StoreError::Synchronization {
            component: "exact query result slot"
        }))
    );
    assert_eq!(
        merge_exact(vec![], 2, Err(StoreError::Closing)).map(|_| ()),
        Err(QueryError::Store(StoreError::Closing))
    );
}

#[test]
fn a_panicked_worker_is_reported_when_the_pool_stops() {
    assert_eq!(stop_and_join(&vec![false, false]), Ok(()));
    assert_eq!(stop_and_join(&vec![false, true]), Err(StoreError::QueryPoolThreadPanicked));
    assert_eq!(worker_started(Ok(()), true), Ok(()));
    assert_eq!(worker_started(Ok(()), false), Err(StoreError::QueryPoolHandshake));
    assert_eq!(
        worker_started(Err(IoError::other("no thread")), true),
        Err(StoreError::QueryPoolStart { source: IoError::other("no thread") })
    );
}

#[test]
fn a_lost_lexical_worker_is_an_error_of_its_leg() {
    assert_eq!(lexical_reply(LexicalReply::Completed(4_u8)), Ok(4));
    assert_eq!(
        lexical_reply::<u8>(LexicalReply::Panicked),
        Err(FusionError::LegPanic {
            leg: FusionLeg::Lexical,
            detail: "lexical hybrid leg panicked",
        })
    );
    assert_eq!(
        lexical_reply::<u8>(LexicalReply::Faulted(LexicalWorkerFault::Disconnected)),
        Err(FusionError::LegThreadStart {
            leg: FusionLeg::Lexical,
            detail: "pooled lexical worker disconnected before reporting a result".to_owned(),
        })
    );
}

#[test]
fn the_frontier_of_a_rescored_scan_is_bounded() {
    assert_eq!(ScanRescoreOptions::new(0, 4), Err(RescoreError::ZeroOversample));
    assert_eq!(ScanRescoreOptions::new(4, 0), Err(RescoreError::ZeroCandidateLimit));
    let options = ScanRescoreOptions::new(3, 10).expect("options");
    assert_eq!(options.oversample(), 3);
    assert_eq!(options.max_candidates_per_segment(), 10);
    assert_eq!(options.frontier(2, 100), Ok(6));
    assert_eq!(options.frontier(2, 5), Ok(5));
    assert_eq!(
        options.frontier(4, 100),
        Err(QueryError::Scan(ScanError::Rescore(RescoreError::CandidateLimitExceeded {
            requested: 12,
            maximum: 10,
        })))
    );
    assert_eq!(
        options.frontier(usize::MAX, 100),
        Err(QueryError::Scan(ScanError::Rescore(RescoreError::ArithmeticOverflow)))
    );
}

#[test]
fn work_is_added_up_to_the_counter_that_overflows() {
    let some = |value| ScanRescoreCounters {
        coarse_rows: value,
        eligible_rows: value,
        candidates_rescored: value,
        coarse_bytes: value,
        rescore_bytes: value,
    };
    let mut total = some(1);
    assert_eq!(accumulate(&mut total, some(2)), Ok(()));
    assert_eq!(total, some(3));
    let mut more = some(1);
    more.candidates_rescored = u64::MAX;
    assert_eq!(accumulate(&mut total, more), Err(overflow()));
    assert_eq!(total.eligible_rows, 4);
    assert_eq!(total.candidates_rescored, 3);
    assert_eq!(total.coarse_bytes, 3);
}

#[test]
fn the_rows_of_a_rescoring_are_checked_before_they_are_read() {
    let (mut flags, cancellation) = active_token();
    let clock = ManualMonotonicClock::new();
    let options = ScanRescoreOptions::new(1, 2).expect("options");
    let rows = vec![row(2, -1.0), row(0, -2.0)];
    let mut select = |rows: &Vec<ScanCandidate>, values, dimension, room| {
        let mut poll = board_poll(cancellation, &mut flags, &clock);
        select_rows(options, rows, values, dimension, room, &mut poll)
    };
    assert_eq!(
        select(&rows, 12, 4, Ok(())),
        Ok(vec![RowRange { start: 8, end: 12 }, RowRange { start: 0, end: 4 }])
    );
    assert_eq!(
        select(&rows, 12, 0, Ok(())),
        Err(QueryError::Scan(ScanError::ZeroDimension))
    );
    assert_eq!(
        select(&rows, 13, 4, Ok(())),
        Err(QueryError::Scan(ScanError::RowDataLength { dimension: 4, actual: 13 }))
    );
    assert_eq!(
        select(&rows, 8, 4, Ok(())),
        Err(QueryError::Scan(ScanError::Rescore(RescoreError::CandidateRowOutOfRange {
            position: 0,
            row_index: 2,
            row_count: 2,
        })))
    );
    assert_eq!(
        select(&rows, 12, 4, Err(StoreError::Closing)),
        Err(QueryError::Store(StoreError::Closing))
    );
    assert_eq!(
        select(&vec![row(0, -1.0); 3], 12, 4, Err(StoreError::Closing)),
        Err(QueryError::Scan(ScanError::Rescore(RescoreError::CandidateLimitExceeded {
            requested: 3,
            maximum: 2,
        })))
    );
    assert_eq!(select(&vec![row(usize::MAX, -1.0)], 12, 4, Ok(())), Err(overflow()));
}

fn exactly(
    rows: &mut Vec<ScanCandidate>,
    stats: &mut ScanStats,
    scores: &Vec<ExactScore>,
    dimension: usize,
    k: usize,
    eligible: u64,
    caller: u64,
    room: Result<(), StoreError>,
) -> Result<Rescored, QueryError> {
    set_exact_scores(rows, scores);
    complete_rescoring(rows, stats, scores, dimension, k, eligible, caller, room)
}

fn coarse_stats() -> ScanStats {
    ScanStats { dims_touched: 40, bytes_read: 50, threads_used: 1, worker_thread_ids: vec![3] }
}

#[test]
fn rescored_rows_are_ranked_by_their_exact_scores() {
    let mut rows = vec![row(0, -1.0), row(1, -2.0), row(2, -3.0)];
    let mut stats = coarse_stats();
    let scores: Vec<ExactScore> = [-5.0, -4.0, -4.0]
        .iter()
        .map(|value| ExactScore { exact: double(*value), narrowed: score(*value as f32) })
        .collect();
    let done = exactly(&mut rows, &mut stats, &scores, 4, 1, 3, 9, Ok(())).expect("rescored");
    assert_eq!(rows, vec![row(1, -4.0), row(2, -4.0)]);
    assert!(done.exhaustive);
    assert_eq!(done.worst, Some(score(-5.0)));
    assert_eq!(
        done.counters,
        ScanRescoreCounters {
            coarse_rows: 10,
            eligible_rows: 3,
            candidates_rescored: 3,
            coarse_bytes: 50,
            rescore_bytes: 48,
        }
    );
    assert_eq!(stats.dims_touched, 52);
    assert_eq!(stats.bytes_read, 98);
    assert_eq!(stats.worker_thread_ids, vec![3, 9]);
    assert_eq!(stats.threads_used, 2);
    let mut rows = vec![row(0, -1.0)];
    let mut stats = coarse_stats();
    let done = exactly(&mut rows, &mut stats, &scores[..1].to_vec(), 4, 1, 3, 9, Ok(())).expect("rescored");
    assert!(!done.exhaustive);
    assert_eq!(done.worst, None);
}

#[test]
fn a_failed_or_stopped_scoring_ends_the_scan() {
    let (mut flags, cancellation) = active_token();
    let clock = ManualMonotonicClock::new();
    let plan = plan_squared_l2(1, 3, 3, &vec![false; 3], 8, &mut board_poll(cancellation, &mut flags, &clock));
    assert!(matches!(plan, Ok(SquaredL2Plan::Finished(outcome)) if outcome.candidates.is_empty()));
    let plan =
        plan_squared_l2(1, 3, 3, &vec![true, false, true], 8, &mut board_poll(cancellation, &mut flags, &clock));
    assert!(matches!(plan, Ok(SquaredL2Plan::Rescore(rows)) if rows == vec![0, 2]));
    let failed = RescoreCheckError::Rescore(RescoreError::NonFiniteExactScore { row_index: 2 });
    assert_eq!(
        scan_squared_l2(Err(failed), 1, 1, 8, &mut board_poll(cancellation, &mut flags, &clock)).map(|_| ()),
        Err(QueryError::Scan(ScanError::NonFiniteScore { row_id: 2 }))
    );
    let stopped = RescoreCheckError::Check(QueryError::Cancelled { partial: false });
    let mut rows = vec![row(0, -1.0)];
    let mut stats = coarse_stats();
    let result = rescore(
        &mut rows,
        &mut stats,
        Err(stopped),
        4,
        1,
        1,
        9,
        Ok(()),
        &mut board_poll(cancellation, &mut flags, &clock),
    );
    assert_eq!(result.map(|_| ()), Err(QueryError::Cancelled { partial: false }));
    let scores = vec![ExactScore { exact: double(-5.0), narrowed: score(-5.0) }];
    let result = rescore(
        &mut rows,
        &mut stats,
        Ok(scores),
        4,
        1,
        1,
        9,
        Ok(()),
        &mut board_poll(cancellation, &mut flags, &clock),
    );
    assert!(result.expect("rescored").exhaustive);
    assert_eq!(rows, vec![row(0, -5.0)]);
    let hits = vec![RescoredHit { row_index: 2, score: score(-1.0) }];
    let rescored = Ok(RescoredRows { hits, candidates_rescored: 1 });
    let scanned = scan_squared_l2(rescored, 1, 1, 8, &mut board_poll(cancellation, &mut flags, &clock));
    assert_eq!(scanned.expect("scanned").candidates, vec![row(2, -1.0)]);
    let hits = vec![RescoredHit { row_index: 2, score: score(-1.0) }];
    let rescored = Ok(RescoredRows { hits, candidates_rescored: 1 });
    flags.settle(cancellation.control.state(), StopState::Cancelled);
    assert_eq!(
        scan_squared_l2(rescored, 1, 1, 8, &mut board_poll(cancellation, &mut flags, &clock)).map(|_| ()),
        Err(QueryError::Cancelled { partial: false })
    );
}

#[test]
fn a_worker_without_room_fails_the_rescoring_only_where_it_is_new() {
    let refused = StoreError::AllocationFailed { needed: 16, component: "rescore worker IDs" };
    let scores = vec![ExactScore { exact: double(-5.0), narrowed: score(-5.0) }];
    let mut rows = vec![row(0, -1.0)];
    let mut stats = coarse_stats();
    let denied = Err(StoreError::AllocationFailed { needed: 16, component: "rescore worker IDs" });
    assert_eq!(
        exactly(&mut rows, &mut stats, &scores, 4, 1, 3, 9, denied).map(|_| ()),
        Err(QueryError::Store(refused))
    );
    assert_eq!(rows, vec![row(0, -5.0)]);
    assert_eq!(stats.dims_touched, 44);
    assert_eq!(stats.worker_thread_ids, vec![3]);
    let denied = Err(StoreError::AllocationFailed { needed: 16, component: "rescore worker IDs" });
    exactly(&mut rows, &mut stats, &scores, 4, 1, 3, 3, denied).expect("listed already");
    assert_eq!(stats.worker_thread_ids, vec![3]);
}

#[test]
fn a_score_that_cannot_be_narrowed_fails_the_rescoring() {
    let mut rows = vec![row(7, -1.0), row(5, -2.0), row(6, -3.0)];
    let mut stats = coarse_stats();
    let scores = vec![
        ExactScore { exact: double(-1e60), narrowed: score(f32::NEG_INFINITY) },
        ExactScore { exact: double(-4.0), narrowed: score(-4.0) },
        ExactScore { exact: double(-1e60), narrowed: score(f32::NEG_INFINITY) },
    ];
    assert_eq!(
        exactly(&mut rows, &mut stats, &scores, 4, 1, 3, 9, Ok(())).map(|_| ()),
        Err(QueryError::Scan(ScanError::NonFiniteScore { row_id: 6 }))
    );
    assert_eq!(rows, vec![row(7, -1.0), row(5, -4.0), row(6, -3.0)]);
    assert_eq!(stats.dims_touched, 40);
    assert_eq!(stats.worker_thread_ids, vec![3]);
}

fn entries(first: u32) -> GraphEntries {
    GraphEntries { first, second: 1, third: 2, fourth: 3 }
}

#[test]
fn a_segment_is_prepared_once() {
    let mut cache = SegmentGraphSearchCache::new();
    let range = NormRange { minimum: double(1.0), maximum: double(2.0) };
    let failed = cache.prepare_shared(
        Ok(()),
        Ok(entries(9)),
        Err(GraphSearchError::Cancelled { partial: false }),
    );
    assert_eq!(
        failed,
        Err(GraphCacheError::Search(GraphSearchError::Cancelled { partial: false }))
    );
    assert_eq!(cache.entries, Some(entries(9)));
    let prepared = cache.prepare_shared(Ok(()), Ok(entries(5)), Ok(range)).expect("prepared");
    assert!(!prepared.graph_validated);
    assert!(!prepared.entry_seed_discovered);
    assert_eq!(prepared.norm_range, range);
    assert_eq!(cache.entries, Some(entries(9)));
    assert_eq!(
        cache.bind_graph(Err(StoreError::Closing)),
        Err(GraphCacheError::Store(StoreError::Closing))
    );
    assert_eq!(cache.bind_graph(Ok(())), Ok(false));
    assert_eq!(SegmentGraphSearchCache::new().bind_graph(Ok(())), Ok(true));
}

#[test]
fn scratches_are_charged_reused_and_bounded() {
    let (mut flags, cancellation) = active_token();
    let mut accounting = Accounting::new(100, 0);
    let mut cache = SegmentGraphSearchCache::new();
    assert_eq!(
        cache.checkout_step(0, &cancellation, &mut flags, 0),
        Err(GraphCacheError::Search(GraphSearchError::Geometry(
            Geometry::ScratchPoolCapacityZero
        )))
    );
    let made = |bytes| ScratchAllocation::Made { requested: bytes, actual: bytes };
    assert_eq!(cache.checkout_step(1, &cancellation, &mut flags, 0), Ok(CheckoutStep::Ready));
    let lease = cache
        .checkout(&mut accounting, Ok(entries(4)), false, made(40))
        .expect("scratch");
    assert!(lease.entry_seed_discovered);
    assert_eq!(accounting.resident, 40);
    assert_eq!(cache.checkout_step(1, &cancellation, &mut flags, 0), Ok(CheckoutStep::Wait));
    cache.give_back(&lease);
    assert_eq!(cache.checkout_step(1, &cancellation, &mut flags, 0), Ok(CheckoutStep::Ready));
    let again = cache
        .checkout(&mut accounting, Ok(entries(8)), true, made(0))
        .expect("scratch");
    assert_eq!(again.entries, entries(4));
    assert!(!again.entry_seed_discovered);
    assert_eq!(again.bytes, 40);
    cache.give_back(&again);
    let mismatched = cache.checkout(
        &mut accounting,
        Ok(entries(8)),
        false,
        ScratchAllocation::Made { requested: 50, actual: 51 },
    );
    assert_eq!(
        mismatched,
        Err(GraphCacheError::Search(GraphSearchError::Geometry(Geometry::ScratchCapacity {
            actual: 51,
            requested: 50,
        })))
    );
    assert_eq!(accounting.resident, 40);
    let refused = cache.checkout(&mut accounting, Ok(entries(8)), false, made(61));
    assert_eq!(
        refused,
        Err(GraphCacheError::Store(StoreError::BudgetExceeded {
            needed: 101,
            budget: 100,
            component: "cache",
        }))
    );
    let replaced = cache
        .checkout(&mut accounting, Ok(entries(8)), false, made(60))
        .expect("scratch");
    assert_eq!(replaced.bytes, 60);
    assert_eq!(accounting.resident, 60);
    assert!(cache.available.is_empty());
    assert_eq!(cache.checked_out, 1);
    if let QueryControl::Cancel(token) = cancellation.control {
        token.cancel(&mut flags);
    }
    assert_eq!(
        cache.checkout_step(4, &cancellation, &mut flags, 0),
        Err(GraphCacheError::Search(GraphSearchError::Cancelled { partial: false }))
    );
}

/// Passes checks until the one that finds a stop, and counts them.
struct Scripted {
    made: usize,
    stop_at: usize,
}

impl StopSource for Scripted {
    fn look(&mut self, _query: &QueryCancellation) -> Result<(), ScanError> {
        self.made += 1;
        if self.made >= self.stop_at {
            Err(ScanError::Cancelled { partial: false })
        } else {
            Ok(())
        }
    }
}

#[test]
fn live_rows_are_gathered_with_a_check_every_so_many_rows() {
    let gather = |rows: usize, stop_at| {
        let (_, cancellation) = active_token();
        let mut poll = StopPoll::new(cancellation, Scripted { made: 0, stop_at });
        let found = live_row_indices(rows, &vec![true; rows], &mut poll);
        (found.map(|rows| rows.len()), poll.source.made)
    };
    let stopped = || Err(QueryError::Cancelled { partial: false });
    assert_eq!(gather(0, 9), (Ok(0), 1));
    assert_eq!(gather(64, 9), (Ok(64), 2));
    assert_eq!(gather(65, 9), (Ok(65), 3));
    assert_eq!(gather(200, 9), (Ok(200), 5));
    assert_eq!(gather(200, 3), (stopped(), 3));
    assert_eq!(gather(200, 5), (stopped(), 5));
}

#[test]
fn rows_are_selected_with_a_check_every_so_many_candidates() {
    let options = ScanRescoreOptions::new(2, 1_000).expect("options");
    let select = |count: usize, stop_at| {
        let (_, cancellation) = active_token();
        let mut poll = StopPoll::new(cancellation, Scripted { made: 0, stop_at });
        let rows: Vec<_> = (0..count).map(|at| row(at, -1.0)).collect();
        let found = select_rows(options, &rows, 130, 1, Ok(()), &mut poll);
        (found.map(|rows| rows.len()), poll.source.made)
    };
    let stopped = || Err(QueryError::Cancelled { partial: false });
    assert_eq!(select(130, 9), (Ok(130), 4));
    assert_eq!(select(130, 1), (stopped(), 1));
    assert_eq!(select(130, 4), (stopped(), 4));
    assert_eq!(select(131, 9).1, 4);
    assert!(select(131, 9).0.is_err());
}

#[test]
fn the_next_check_stops_a_query_that_is_stopped_on_its_board() {
    let gather = |query, flags: &mut StopFlags, clock: &ManualMonotonicClock| {
        live_row_indices(3, &vec![true; 3], &mut board_poll(query, flags, clock))
    };
    let mut clock = ManualMonotonicClock::starting_at(100);

    let (mut flags, cancellation) = active_token();
    assert_eq!(gather(cancellation, &mut flags, &clock), Ok(vec![0, 1, 2]));
    assert_eq!(cancellation.check(&flags), Ok(()));
    cancellation.cancel_token_for_test().expect("token").cancel(&mut flags);
    assert_eq!(
        gather(cancellation, &mut flags, &clock),
        Err(QueryError::Cancelled { partial: false })
    );

    let (mut flags, cancellation) = active_token();
    flags.settle(cancellation.lease_flag, StopState::Cancelled);
    assert_eq!(
        gather(cancellation, &mut flags, &clock),
        Err(QueryError::ReadCancelled { partial: false })
    );

    let mut flags = StopFlags::new();
    let deadline = Deadline::after_with_test_clock(5, &clock, &mut flags).expect("deadline");
    let query = QueryCancellation::new(QueryControl::Deadline(deadline), flags.add_flag());
    clock.advance(4);
    assert_eq!(gather(query, &mut flags, &clock), Ok(vec![0, 1, 2]));
    clock.advance(1);
    assert_eq!(gather(query, &mut flags, &clock), Err(QueryError::Timeout { partial: false }));
    let mut poll = board_poll(query, &mut flags, &clock);
    for _ in 0..2 {
        assert_eq!(poll.check(), Err(ScanError::Timeout { partial: false }));
    }
}
