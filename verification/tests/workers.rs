use zeppelin_embed::candidates::{ScanCandidate, ScanOutcome, ScanStats};
use zeppelin_embed::clock::ClockDomain;
use zeppelin_embed::control::{
    CancelToken, Deadline, QueryCancellation, QueryControl, StopFlags, StopState,
};
use zeppelin_embed::error::{
    Geometry, GraphSearchError, QueryError, ScanError, SegmentError, StoreError,
};
use zeppelin_embed::fusion::{FusionError, FusionLeg};
use zeppelin_embed::graph_cache::NormRange;
use zeppelin_embed::ids::{RowSource, SegmentId};
use zeppelin_embed::options::{GraphSearchOptions, GraphSearchProfile};
use zeppelin_embed::pool::{
    exact_worker_failure, execute_store_scan, finish_exact, finish_scan, plan_exact, plan_scan,
    ExactScanError, ExactWorkerFault, LexicalWorkerFault, PartitionScan, RowRange, ScanGeometry,
};
use zeppelin_embed::score::{Double, Score};
use zeppelin_embed::search::{
    compute_segment_vector_ceiling_norm_range, exact_rescore_rows, exact_rescore_rows_for_search,
    fold_exact_vector_ceiling,
    query_rescore_rows, query_rescore_rows_for_search,
    remembered_segment_vector_ceiling_norm_range, vector_fault_source, VectorRowSource,
};
use zeppelin_embed::traversal::hop_cancellation;

fn score(value: f32) -> Score {
    Score { bits: value.to_bits() }
}

fn row(row_id: usize, value: f32) -> ScanCandidate {
    ScanCandidate { row_id, score: score(value) }
}

fn part(rows: &[(usize, f32)], worker: u64) -> PartitionScan {
    PartitionScan {
        candidates: rows.iter().map(|(id, value)| row(*id, *value)).collect(),
        dims_touched: 4,
        bytes_read: 2,
        worker_thread_id: worker,
    }
}

fn outcome(rows: &[(usize, f32)], worker: u64) -> ScanOutcome {
    ScanOutcome {
        candidates: rows.iter().map(|(id, value)| row(*id, *value)).collect(),
        worst_score: Some(score(0.5)),
        stats: ScanStats {
            dims_touched: 4,
            bytes_read: 2,
            threads_used: 1,
            worker_thread_ids: vec![worker],
        },
    }
}

fn query() -> (StopFlags, CancelToken, QueryCancellation) {
    let mut flags = StopFlags::new();
    let token = CancelToken::new(&mut flags);
    let lease = flags.add_flag();
    (flags, token, QueryCancellation::new(QueryControl::Cancel(token), lease))
}

fn stopped() -> QueryError {
    QueryError::Store(StoreError::Synchronization { component: "stopped query pool" })
}

fn overflow() -> QueryError {
    QueryError::Scan(ScanError::ArithmeticOverflow)
}

#[test]
fn a_scan_is_planned_before_its_pool_is_asked() {
    let shape = ScanGeometry { row_count: 10, work_units: 8 };
    assert_eq!(
        plan_scan(4, true, Ok(shape), 3),
        Ok(vec![
            RowRange { start: 0, end: 3 },
            RowRange { start: 3, end: 6 },
            RowRange { start: 6, end: 10 },
        ])
    );
    assert_eq!(plan_scan(4, false, Ok(shape), 3), Err(stopped()));
    assert_eq!(
        plan_scan(4, false, Err(ScanError::ArithmeticOverflow), 3),
        Err(overflow())
    );
    let huge = ScanGeometry { row_count: usize::MAX, work_units: 8 };
    assert_eq!(plan_scan(4, false, Ok(huge), 3), Err(overflow()));
}

#[test]
fn a_stop_comes_before_what_the_slots_report() {
    let (mut flags, token, cancellation) = query();
    let slots = || vec![Some(Ok(part(&[(1, 3.0)], 7))), Some(Ok(part(&[(5, 4.0)], 8)))];
    let merged = finish_scan(&cancellation, &flags, slots(), 10, 1).expect("merged");
    assert_eq!(merged.candidates, vec![row(5, 4.0)]);
    assert_eq!(merged.stats.threads_used, 2);
    assert_eq!(merged.stats.worker_thread_ids, vec![7, 8]);
    assert_eq!(
        finish_scan(
            &cancellation,
            &flags,
            vec![None, Some(Err(ScanError::WorkerPanicked))],
            10,
            1
        ),
        Err(QueryError::Store(StoreError::Synchronization { component: "query result slot" }))
    );
    token.cancel(&mut flags);
    assert_eq!(
        finish_scan(&cancellation, &flags, vec![None], 10, 1),
        Err(QueryError::Cancelled { partial: false })
    );
    flags.settle(cancellation.lease_flag, StopState::Cancelled);
    assert_eq!(
        finish_scan(&cancellation, &flags, slots(), 10, 1),
        Err(QueryError::ReadCancelled { partial: false })
    );
}

#[test]
fn an_exact_scan_is_planned_from_its_lane() {
    let refused = StoreError::BudgetExceeded { needed: 9, budget: 8, component: "temporary" };
    assert_eq!(
        plan_exact(4, false, 1_000, 512, 0, 0, Err(refused.clone())),
        Err(QueryError::Store(refused))
    );
    assert_eq!(plan_exact(4, false, 1_000, 512, 0, 0, Ok(())), Err(stopped()));
    assert_eq!(plan_exact(0, true, 1_000, 512, 0, 0, Ok(())), Err(overflow()));
    let slots = plan_exact(4, true, 1_000, 512, 2, 3, Ok(())).expect("slots");
    assert_eq!(slots.iter().map(|slot| slot.worker).collect::<Vec<_>>(), vec![3, 0]);
    assert_eq!(slots[1].rows, RowRange { start: 500, end: 1_000 });
}

#[test]
fn a_poisoned_exact_scan_fails_behind_a_stop() {
    let (mut flags, token, cancellation) = query();
    let slots = || vec![Some(Ok(outcome(&[(1, 3.0)], 7))), Some(Ok(outcome(&[(5, 3.0)], 7)))];
    let merged = finish_exact(&cancellation, &flags, false, slots(), 1, Ok(())).expect("merged");
    assert_eq!(merged.candidates, vec![row(1, 3.0), row(5, 3.0)]);
    assert_eq!(merged.stats.threads_used, 1);
    assert_eq!(
        finish_exact(&cancellation, &flags, true, slots(), 1, Ok(())),
        Err(QueryError::Store(StoreError::Synchronization {
            component: "exact query completion"
        }))
    );
    let faulty = |fault| {
        let slots = vec![Some(Ok(outcome(&[(1, 3.0)], 7))), Some(Err(exact_worker_failure(fault)))];
        finish_exact(&cancellation, &flags, false, slots, 1, Ok(()))
    };
    assert_eq!(
        faulty(ExactWorkerFault::Panic),
        Err(QueryError::Scan(ScanError::WorkerPanicked))
    );
    assert_eq!(
        faulty(ExactWorkerFault::NonFinite { row_id: 9 }),
        Err(QueryError::Scan(ScanError::NonFiniteScore { row_id: 9 }))
    );
    assert_eq!(
        exact_worker_failure(ExactWorkerFault::Panic),
        ExactScanError::Query(QueryError::Scan(ScanError::WorkerPanicked))
    );
    token.cancel(&mut flags);
    assert_eq!(
        finish_exact(&cancellation, &flags, true, slots(), 1, Ok(())),
        Err(QueryError::Cancelled { partial: false })
    );
}

#[test]
fn armed_vector_faults_scan_in_one_part() {
    let shape = Ok(ScanGeometry { row_count: 10, work_units: 8 });
    let pooled = || Err(stopped());
    assert_eq!(execute_store_scan(shape.clone(), None, pooled()), pooled());
    let scanned = execute_store_scan(shape.clone(), Some(Ok(part(&[(1, 3.0)], 7))), pooled())
        .expect("one part");
    assert_eq!(scanned.candidates, vec![row(1, 3.0)]);
    assert_eq!(scanned.worst_score, None);
    assert_eq!(scanned.stats.threads_used, 1);
    assert_eq!(scanned.stats.worker_thread_ids, vec![7]);
    assert_eq!(
        execute_store_scan(shape, Some(Err(ScanError::Timeout { partial: true })), pooled()),
        Err(QueryError::Timeout { partial: true })
    );
    assert_eq!(
        execute_store_scan(
            Err(ScanError::ArithmeticOverflow),
            Some(Err(ScanError::WorkerPanicked)),
            pooled()
        ),
        Err(overflow())
    );
}

#[test]
fn a_fault_of_the_lexical_worker_has_its_own_words() {
    let words = |fault: LexicalWorkerFault| match fault.into_error() {
        FusionError::LegThreadStart { leg: FusionLeg::Lexical, detail } => detail,
        other => panic!("{other:?}"),
    };
    assert_eq!(words(LexicalWorkerFault::Unspawned("no thread".to_owned())), "no thread");
    assert_eq!(
        words(LexicalWorkerFault::Handshake),
        "pooled lexical worker startup handshake failed"
    );
    assert_eq!(
        words(LexicalWorkerFault::Poisoned),
        "pooled lexical worker synchronization was poisoned"
    );
    assert_eq!(words(LexicalWorkerFault::Stopped), "pooled lexical worker was stopped");
    assert_eq!(
        words(LexicalWorkerFault::Submission),
        "pooled lexical worker disconnected during submission"
    );
}

#[test]
fn exact_rows_are_missing_where_a_fault_says_so() {
    let segment = SegmentId { value: 3 };
    let damaged = || SegmentError::Other("damaged".to_owned());
    assert_eq!(exact_rescore_rows(Ok(4_u8)), Ok(4));
    assert_eq!(query_rescore_rows(Ok(4_u8)), Ok(4));
    assert_eq!(
        exact_rescore_rows_for_search::<u8>(segment, 8, None, Err(damaged())),
        Err(QueryError::Store(StoreError::Segment(damaged())))
    );
    let missing = Err(QueryError::Store(StoreError::Segment(SegmentError::Geometry(
        Geometry::ExactScoresUnavailable { segment, expected: 8, available: 5 },
    ))));
    assert_eq!(exact_rescore_rows_for_search(segment, 8, Some(5), Ok(4_u8)), missing);
    assert_eq!(query_rescore_rows_for_search(segment, 8, Some(5), Ok(4_u8)), missing);
    assert_eq!(query_rescore_rows_for_search(segment, 8, None, Ok(4_u8)), Ok(4));
    assert_eq!(vector_fault_source(RowSource::Active), VectorRowSource::Active);
    assert_eq!(vector_fault_source(RowSource::Sealed(segment)), VectorRowSource::Sealed(segment));
}

#[test]
fn a_norm_enclosure_is_walked_once_and_remembered() {
    let range = |maximum: f64| NormRange {
        minimum: Double { bits: 0 },
        maximum: Double { bits: maximum.to_bits() },
    };
    let damaged = || SegmentError::Other("damaged".to_owned());
    let mut memory = None;
    assert_eq!(
        remembered_segment_vector_ceiling_norm_range(
            &mut memory,
            4,
            Err(damaged()),
            Ok(range(2.0))
        ),
        Err(QueryError::Store(StoreError::Segment(damaged())))
    );
    assert_eq!(memory, None);
    assert_eq!(
        remembered_segment_vector_ceiling_norm_range(
            &mut memory,
            4,
            Ok(range(1.0)),
            Ok(range(2.0))
        ),
        Ok(range(1.0))
    );
    assert_eq!(
        remembered_segment_vector_ceiling_norm_range(
            &mut memory,
            4,
            Err(damaged()),
            Err(damaged())
        ),
        Ok(range(1.0))
    );
    assert_eq!(
        compute_segment_vector_ceiling_norm_range(2, Ok(range(1.0)), Ok(range(2.0))),
        Ok(range(2.0))
    );
    assert!(compute_segment_vector_ceiling_norm_range(7, Ok(range(1.0)), Ok(range(2.0))).is_err());
}

#[test]
fn cancelling_by_hops_needs_a_token() {
    let (_, token, cancellation) = query();
    let profile = GraphSearchProfile::SiftClass;
    let options = GraphSearchOptions::new(profile);
    assert_eq!(hop_cancellation(&options, &cancellation), Ok(None));
    let armed = options.with_cancel_after_hops(3);
    assert_eq!(hop_cancellation(&armed, &cancellation), Ok(Some((3, token))));
    let mut flags = StopFlags::new();
    let timed = QueryCancellation::new(
        QueryControl::Deadline(Deadline::after_instant(5, ClockDomain::System, 0, &mut flags).expect("deadline")),
        0,
    );
    assert_eq!(
        hop_cancellation(&armed, &timed),
        Err(QueryError::Graph(GraphSearchError::Geometry(
            Geometry::HopCancellationWithoutToken
        )))
    );
}

const CEILING_ROWS: [[f32; 4]; 3] = [
    [0.5, -0.25, 0.75, 0.125],
    [3.0, 1.5, -2.5, 0.25],
    [0.0, 0.0, 0.0, 0.0],
];

fn norm(row: &[f32]) -> f64 {
    row.iter().map(|value| f64::from(*value) * f64::from(*value)).sum::<f64>().sqrt()
}

fn enclosure(rows: &[[f32; 4]]) -> NormRange {
    let norms: Vec<f64> = rows.iter().map(|row| norm(row)).collect();
    let bits = |value: f64| Double { bits: value.to_bits() };
    NormRange {
        minimum: bits(norms.iter().copied().fold(f64::MAX, f64::min)),
        maximum: bits(norms.iter().copied().fold(0.0, f64::max)),
    }
}

fn ceiling(query: &[f32], range: NormRange) -> Result<Double, QueryError> {
    let reach = norm(query) + f64::from_bits(range.maximum.bits);
    Ok(Double { bits: (reach * reach).to_bits() })
}

#[test]
fn the_remembered_vector_ceiling_is_the_recomputed_ceiling_for_every_scheme() {
    let queries: [Vec<f32>; 3] =
        [vec![0.0, 0.0, 0.0, 0.0], vec![1.0, -1.0, 0.5, 2.0], vec![7.5, 0.25, -3.5, 0.125]];
    for (scheme, segments) in [
        (4, vec![CEILING_ROWS.to_vec()]),
        (4, CEILING_ROWS.iter().map(|row| vec![*row]).collect()),
        (2, vec![CEILING_ROWS.to_vec()]),
        (0, vec![CEILING_ROWS.to_vec()]),
        (4, vec![CEILING_ROWS[..1].to_vec()]),
    ] {
        let read = |rows: &Vec<[f32; 4]>| Ok::<NormRange, SegmentError>(enclosure(rows));
        let mut memory: Vec<Option<NormRange>> = vec![None; segments.len()];
        for query in &queries {
            let mut walk = |memory: &mut Vec<Option<NormRange>>| {
                let bounds = segments.iter().zip(memory).map(|(rows, slot)| {
                    remembered_segment_vector_ceiling_norm_range(
                        slot,
                        scheme,
                        read(rows),
                        read(rows),
                    )
                    .and_then(|range| ceiling(query, range))
                });
                fold_exact_vector_ceiling(None, bounds.collect()).expect("ceiling")
            };
            let cold = walk(&mut memory);
            for (rows, slot) in segments.iter().zip(&memory) {
                let recomputed =
                    compute_segment_vector_ceiling_norm_range(scheme, read(rows), read(rows))
                        .expect("recomputed enclosure");
                assert_eq!(*slot, Some(recomputed));
            }
            let warm = walk(&mut memory);
            let bounds = segments.iter().map(|rows| {
                compute_segment_vector_ceiling_norm_range(scheme, read(rows), read(rows))
                    .and_then(|range| ceiling(query, range))
            });
            let recomputed =
                fold_exact_vector_ceiling(None, bounds.collect()).expect("recomputed ceiling");
            assert_eq!(cold, warm);
            assert_eq!(cold, recomputed);
        }
    }
}
