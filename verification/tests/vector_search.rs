use zeppelin_embed::candidates::{ScanCandidate, ScanOutcome, ScanStats};
use zeppelin_embed::corpus::{ActiveFacts, SegmentFacts};
use zeppelin_embed::error::{
    AdaptiveEfError, Geometry, GraphProfileError, GraphSearchError, QuantError, QueryError,
    ScanError, SegmentError, StoreError,
};
use zeppelin_embed::exhaustive::{rank_rescored, RescoredHit};
use zeppelin_embed::ids::{
    DocId, DocumentVersion, GlobalRowId, Revision, RowSource, SegmentId,
};
use zeppelin_embed::options::{
    GraphBoundMode, GraphSearchOptions, GraphSearchProfile, ScanOptions, SearchOptions, SearchTier,
};
use zeppelin_embed::plan::{PlanChoice, ScanReason, SegmentTier};
use zeppelin_embed::score::{Double, Score};
use zeppelin_embed::search::GraphHit;
use zeppelin_embed::traversal::{
    plan_traversal, pruned_result, segment_is_pruned, DistanceBounds, GraphFacts, GraphTraversal,
    PreparationFacts, RoundCounters, TraversalStep,
};
use zeppelin_embed::vector_search::{
    count_alive, scan_sealed_segment, ScanKind, SearchAction, SearchClosing, SearchOutcome,
    VectorSearch,
};

const DIMS: usize = 128;
const ROWS: usize = 32;
const K: usize = 4;
const MAX_DIMENSION: usize = 4_096;

struct Random(u64);

impl Random {
    fn within(&mut self, reach: f32) -> f32 {
        self.0 = self.0.wrapping_mul(6_364_136_223_846_793_005).wrapping_add(1);
        let unit = (self.0 >> 40) as f32 / (1_u64 << 24) as f32;
        (unit * 2.0 - 1.0) * reach
    }
}

fn sign(dimension: usize) -> f32 {
    if dimension % 2 == 0 {
        1.0
    } else {
        -1.0
    }
}

fn directional_vectors(center: f32, rows: usize, random: &mut Random) -> Vec<Vec<f32>> {
    (0..rows)
        .map(|row| {
            let amplitude = center + row as f32 * 0.01 + random.within(0.002);
            (0..DIMS)
                .map(|dimension| amplitude * sign(dimension) + random.within(0.0001))
                .collect()
        })
        .collect()
}

fn query(amplitude: f32) -> Vec<f32> {
    (0..DIMS).map(|dimension| amplitude * sign(dimension)).collect()
}

fn squared_l2(left: &[f32], right: &[f32]) -> f64 {
    left.iter()
        .zip(right)
        .map(|(a, b)| {
            let difference = f64::from(*a) - f64::from(*b);
            difference * difference
        })
        .sum()
}

fn norm(vector: &[f32]) -> f64 {
    vector
        .iter()
        .map(|value| f64::from(*value) * f64::from(*value))
        .sum::<f64>()
        .sqrt()
}

/// A store whose sealed segments hold their vectors in memory.
struct Corpus {
    vectors: Vec<Vec<Vec<f32>>>,
    segments: Vec<SegmentFacts>,
    active: ActiveFacts,
}

fn no_active() -> ActiveFacts {
    ActiveFacts {
        row_count: 0,
        has_text: false,
        indexed_through_seq: 3,
        documents: Vec::new(),
        alive: Vec::new(),
        texts: Vec::new(),
    }
}

fn facts(id: u128, rows: usize, has_graph: bool) -> SegmentFacts {
    SegmentFacts {
        id: SegmentId { value: id },
        row_count: rows as u32,
        dims: DIMS as u32,
        scheme: 4,
        has_graph,
        has_postings: false,
        documents: Vec::new(),
        alive: vec![true; rows],
        texts: None,
    }
}

fn separated(random: &mut Random, centers: &[f32]) -> Corpus {
    let vectors = centers
        .iter()
        .map(|center| directional_vectors(*center, ROWS, random))
        .collect::<Vec<_>>();
    let segments = (0..centers.len())
        .map(|index| facts(index as u128 + 1, ROWS, true))
        .collect();
    Corpus {
        vectors,
        segments,
        active: no_active(),
    }
}

/// Exhaustive scores of one segment, best first.
fn hits(vectors: &[Vec<f32>], query: &[f32], keep: usize) -> Vec<GraphHit> {
    let mut hits = vectors
        .iter()
        .enumerate()
        .map(|(row, vector)| GraphHit {
            row_id: row as u32,
            score: Score {
                bits: (-(squared_l2(query, vector) as f32)).to_bits(),
            },
        })
        .collect::<Vec<_>>();
    hits.sort_by(|left, right| {
        f32::from_bits(right.score.bits)
            .total_cmp(&f32::from_bits(left.score.bits))
            .then(left.row_id.cmp(&right.row_id))
    });
    hits.truncate(keep);
    hits
}

fn bounds(vectors: &[Vec<f32>], query: &[f32]) -> DistanceBounds {
    let norms = vectors.iter().map(|vector| norm(vector)).collect::<Vec<_>>();
    let least = norms.iter().copied().fold(f64::INFINITY, f64::min);
    let most = norms.iter().copied().fold(0.0, f64::max);
    let own = norm(query);
    let gap = if own < least {
        least - own
    } else if own > most {
        own - most
    } else {
        0.0
    };
    DistanceBounds {
        upper: Double {
            bits: ((own + most) * (own + most)).to_bits(),
        },
        lower: Score {
            bits: ((gap * gap * 0.999_999) as f32).to_bits(),
        },
    }
}

fn closing() -> SearchClosing {
    SearchClosing {
        generation: 6,
        epoch: None,
        absorbed_through: 9,
        recorded: Ok(()),
        ceiling: Ok(Double {
            bits: 4.0_f64.to_bits(),
        }),
        elapsed: 17,
    }
}

fn bits(values: &[f32]) -> Vec<Score> {
    values
        .iter()
        .map(|value| Score {
            bits: value.to_bits(),
        })
        .collect()
}

fn graph_options(rows: usize) -> SearchOptions {
    SearchOptions::new(ScanOptions { thread_budget: 1 }).with_tier(SearchTier::Graph(
        GraphSearchOptions::new(GraphSearchProfile::SiftClass)
            .with_ef(rows)
            .with_seed(0x19_0000_0007),
    ))
}

/// Runs a graph query over complete graphs.
fn search(corpus: &Corpus, query: &[f32], k: usize, bound: GraphBoundMode) -> SearchOutcome {
    let options = graph_options(ROWS);
    let mut search = VectorSearch::begin(
        &bits(query),
        MAX_DIMENSION,
        &corpus.segments,
        0,
        options,
        k,
        bound,
        options.explicit_tier(),
        None,
        Err(GraphProfileError::EpochUnstamped),
    )
    .expect("admitted");
    loop {
        match search.next(&corpus.segments, false).expect("next") {
            SearchAction::Finish => break,
            SearchAction::Traverse {
                ordinal,
                options,
                competitive,
            } => {
                let segment = &corpus.segments[ordinal];
                let vectors = &corpus.vectors[ordinal];
                let live = count_alive(&segment.alive);
                let graph = GraphFacts {
                    source: RowSource::Sealed(segment.id),
                    node_count: segment.row_count,
                    live_count: live,
                    tombstone_count: u64::from(segment.row_count) - live,
                };
                let prepared = PreparationFacts {
                    graph_validated: true,
                    entry_seed_discovered: false,
                };
                let plan = plan_traversal(&graph, &options, k).expect("plan");
                let range = match bound {
                    GraphBoundMode::Shared => Some(bounds(vectors, query)),
                    GraphBoundMode::Independent => None,
                };
                if segment_is_pruned(range, competitive) {
                    search
                        .accept_graph(&corpus.segments, pruned_result(&graph, &prepared), None, false)
                        .expect("pruned");
                    continue;
                }
                let mut traversal = GraphTraversal::start(plan, options);
                let mut request = traversal.request();
                let (found, effective) = loop {
                    let found = hits(vectors, query, request.candidate_k);
                    let counters = RoundCounters {
                        dims_touched: (vectors.len() * DIMS) as u64,
                        bytes_read: (vectors.len() * DIMS * 4) as u64,
                        visited_epoch_cleared: false,
                        candidates_scored: vectors.len(),
                        candidates_rescored: vectors.len(),
                    };
                    match traversal
                        .accept_round(&counters, &found, &segment.alive)
                        .expect("round")
                    {
                        TraversalStep::Done => break (found, request.ef.unwrap_or(0)),
                        TraversalStep::Widen(wider) => request = wider,
                    }
                };
                let result = traversal.finish(&graph, &prepared, found, effective, 1);
                search
                    .accept_graph(&corpus.segments, result, None, false)
                    .expect("traversed");
            }
            other => panic!("unexpected {other:?}"),
        }
    }
    search
        .finish(&corpus.segments, &corpus.active, closing())
        .expect("outcome")
}

fn shared(corpus: &Corpus, query: &[f32], k: usize) -> SearchOutcome {
    search(corpus, query, k, GraphBoundMode::Shared)
}

fn independent(corpus: &Corpus, query: &[f32], k: usize) -> SearchOutcome {
    search(corpus, query, k, GraphBoundMode::Independent)
}

fn candidate_bytes(outcome: &SearchOutcome) -> Vec<(GlobalRowId, u32)> {
    outcome
        .candidates
        .iter()
        .map(|candidate| (candidate.row_id, candidate.score.bits))
        .collect()
}

#[test]
fn multi_segment_graph_search_matches_the_independent_traversal_exactly() {
    let mut random = Random(11);
    let mut pruned_segments = 0_usize;
    for store_index in 0..3 {
        let offset = store_index as f32 * 0.1;
        let corpus = separated(
            &mut random,
            &[
                1.0 + offset,
                20.0 + offset,
                200.0 + offset,
                2_000.0 + offset,
            ],
        );
        for amplitude in [
            1.05 + offset,
            20.08 + offset,
            199.9 + offset,
            1_999.8 + offset,
        ] {
            let query = query(amplitude);
            let expected = independent(&corpus, &query, 6);
            let actual = shared(&corpus, &query, 6);
            assert_eq!(candidate_bytes(&actual), candidate_bytes(&expected));
            pruned_segments += actual.graph_stats.segments_pruned_by_bound;
        }
    }
    assert!(
        pruned_segments > 0,
        "shared path never applied a segment bound: pruned={pruned_segments}"
    );
}

#[test]
fn shared_bound_reduces_candidates_scored_across_segments() {
    let mut random = Random(12);
    let corpus = separated(&mut random, &[1.0, 100.0, 1_000.0]);
    let query = query(1.07);
    let expected = independent(&corpus, &query, K);
    let actual = shared(&corpus, &query, K);

    assert_eq!(candidate_bytes(&actual), candidate_bytes(&expected));
    assert_eq!(expected.graph_stats.candidates_scored, 3 * ROWS);
    assert_eq!(expected.graph_stats.candidates_rescored, 3 * ROWS);
    assert_eq!(actual.graph_stats.candidates_scored, ROWS);
    assert_eq!(actual.graph_stats.candidates_rescored, ROWS);
    assert!(
        actual.graph_stats.candidates_scored < expected.graph_stats.candidates_scored,
        "candidates scored did not fall"
    );
    assert!(
        actual.graph_stats.candidates_rescored < expected.graph_stats.candidates_rescored,
        "candidates rescored did not fall"
    );
}

#[test]
fn a_later_segment_that_cannot_beat_the_bound_does_almost_no_work() {
    let mut random = Random(13);
    let corpus = separated(&mut random, &[1.0, 1_000.0]);
    let query = query(1.07);
    let actual = shared(&corpus, &query, K);

    assert_eq!(
        actual.graph_stats.candidates_scored, ROWS,
        "later segment scored candidates despite a decisive bound"
    );
    assert_eq!(
        actual.graph_stats.candidates_rescored, ROWS,
        "later segment rescored candidates despite a decisive bound"
    );
    assert_eq!(actual.graph_stats.segments_pruned_by_bound, 1);
}

#[test]
fn shared_bound_still_returns_full_k_when_rows_are_tombstoned() {
    let mut random = Random(14);
    let mut corpus = separated(&mut random, &[1.0, 1_000.0]);
    for row in [5, 6, 7] {
        corpus.segments[0].alive[row] = false;
    }
    let query = query(1.06);
    let expected = independent(&corpus, &query, K);
    let actual = shared(&corpus, &query, K);

    assert_eq!(candidate_bytes(&actual), candidate_bytes(&expected));
    assert_eq!(actual.candidates.len(), K);
    assert!(
        actual.graph_stats.segments_pruned_by_bound > 0,
        "tombstone over-fetch never reached a shared-bound prune"
    );
    assert!(actual
        .candidates
        .iter()
        .all(|candidate| ![5, 6, 7].contains(&candidate.row_id.local_row)));
}

#[test]
fn exact_tier_query_does_not_prepare_quantized_forms() {
    let query = [0.25_f32; 128];
    let options =
        SearchOptions::new(ScanOptions { thread_budget: 1 }).with_tier(SearchTier::Exact);
    let begin = |segments: &Vec<SegmentFacts>, active_rows| {
        VectorSearch::begin(
            &bits(&query),
            MAX_DIMENSION,
            segments,
            active_rows,
            options,
            1,
            GraphBoundMode::Shared,
            options.explicit_tier(),
            None,
            Err(GraphProfileError::EpochUnstamped),
        )
        .expect("exact-tier search")
    };
    let empty = begin(&Vec::new(), 0);
    assert_eq!(empty.next(&Vec::new(), true), Ok(SearchAction::Finish));
    let outcome = empty.finish(&Vec::new(), &no_active(), closing()).expect("outcome");
    assert!(outcome.candidates.is_empty());
    assert_eq!((outcome.stats.dims_touched, outcome.stats.bytes_read), (0, 0));

    // Whatever the sources hold, only full-precision rows are asked for.
    let mut segments = vec![facts(1, 8, true), facts(2, 8, false)];
    segments[0].scheme = 4;
    segments[1].scheme = 2;
    for pool in [false, true] {
        let mut search = begin(&segments, 3);
        assert_eq!(
            search.next(&segments, pool),
            Ok(SearchAction::ScanActive(ScanKind::SquaredL2))
        );
        search.active_due = false;
        while search.done < 2 {
            match search.next(&segments, pool) {
                Ok(SearchAction::ScanSealed { kind, .. }) => {
                    assert_eq!(kind, ScanKind::SquaredL2, "Exact tier prepared quantized forms")
                }
                other => panic!("unexpected {other:?}"),
            }
            search.done += 1;
        }
    }
}

#[test]
fn exact_and_graph_tiers_preserve_quantizer_validation_errors() {
    let query = vec![Score { bits: 0 }; MAX_DIMENSION + 1];

    for tier in [
        SearchTier::Exact,
        SearchTier::Graph(GraphSearchOptions::default()),
    ] {
        let options = SearchOptions::new(ScanOptions { thread_budget: 1 }).with_tier(tier);
        let error = VectorSearch::begin(
            &query,
            MAX_DIMENSION,
            &Vec::new(),
            0,
            options,
            1,
            GraphBoundMode::Shared,
            options.explicit_tier(),
            None,
            Err(GraphProfileError::EpochUnstamped),
        )
        .err()
        .expect("oversized quantized query must retain its error");
        assert!(matches!(
            error,
            QueryError::Scan(ScanError::Quant(QuantError::DimensionTooLarge { actual, maximum }))
                if actual == query.len() && maximum == MAX_DIMENSION
        ));
    }
}

fn begin(
    query: &[f32],
    segments: &Vec<SegmentFacts>,
    tier: Option<SearchTier>,
    profile: Result<GraphSearchProfile, GraphProfileError>,
) -> Result<VectorSearch, QueryError> {
    let mut options = SearchOptions::new(ScanOptions { thread_budget: 1 });
    if let Some(tier) = tier {
        options = options.with_tier(tier);
    }
    VectorSearch::begin(
        &bits(query),
        MAX_DIMENSION,
        segments,
        0,
        options,
        K,
        GraphBoundMode::Shared,
        options.explicit_tier(),
        None,
        profile,
    )
}

#[test]
fn a_query_is_refused_before_any_source_is_touched() {
    let unstamped = || Err(GraphProfileError::EpochUnstamped);
    let segments = vec![facts(1, 8, true), facts(2, 8, false)];
    assert_eq!(
        begin(&[], &segments, None, unstamped()).err(),
        Some(QueryError::Scan(ScanError::Quant(QuantError::EmptyVector)))
    );
    assert_eq!(
        begin(&[1.0, f32::NAN], &segments, None, unstamped()).err(),
        Some(QueryError::Scan(ScanError::Quant(QuantError::NonFinite {
            index: 1
        })))
    );
    assert_eq!(
        begin(&[1.0], &segments, None, unstamped()).err(),
        Some(QueryError::Graph(GraphSearchError::Profile(
            GraphProfileError::EpochUnstamped
        )))
    );
    assert_eq!(
        begin(
            &[1.0],
            &segments,
            Some(SearchTier::Graph(GraphSearchOptions::default())),
            unstamped()
        )
        .err(),
        Some(QueryError::Store(StoreError::GraphUnavailable {
            segment_id: SegmentId { value: 2 }
        }))
    );
    assert!(begin(&[1.0], &segments, Some(SearchTier::Exact), unstamped()).is_ok());
}

#[test]
fn an_automatic_query_follows_what_is_published() {
    let segments = vec![facts(1, 8, false), facts(2, 16, true)];
    let search = begin(
        &[1.0],
        &segments,
        None,
        Ok(GraphSearchProfile::AngularClass),
    )
    .expect("admitted");
    // The larger segment comes first, and it has a graph.
    match search.next(&segments, true).expect("next") {
        SearchAction::Traverse {
            ordinal,
            options,
            competitive,
        } => {
            assert_eq!(ordinal, 1);
            assert_eq!(options.profile, GraphSearchProfile::AngularClass);
            assert_eq!(competitive, None);
        }
        other => panic!("unexpected {other:?}"),
    }
}

#[test]
fn a_sealed_scan_is_chosen_by_precision_and_scheme() {
    assert_eq!(scan_sealed_segment(true, false, 9), Ok(ScanKind::SquaredL2));
    assert_eq!(scan_sealed_segment(false, true, 0), Ok(ScanKind::F32));
    assert_eq!(scan_sealed_segment(false, true, 2), Ok(ScanKind::Int8));
    assert_eq!(scan_sealed_segment(false, true, 4), Ok(ScanKind::Bit4));
    assert_eq!(
        scan_sealed_segment(false, true, 9),
        Err(QueryError::Store(StoreError::Segment(
            SegmentError::Geometry(Geometry::SealedScheme(9))
        )))
    );
    assert_eq!(
        scan_sealed_segment(false, false, 4),
        Err(QueryError::Store(StoreError::Synchronization {
            component: "sealed scan-tier query pool"
        }))
    );
}

fn scanned(rows: &[(usize, f32)], worker: u64) -> ScanOutcome {
    ScanOutcome {
        candidates: rows
            .iter()
            .map(|(row_id, distance)| ScanCandidate {
                row_id: *row_id,
                score: Score {
                    bits: (-distance).to_bits(),
                },
            })
            .collect(),
        worst_score: None,
        stats: ScanStats {
            dims_touched: 10,
            bytes_read: 40,
            threads_used: 1,
            worker_thread_ids: vec![worker],
        },
    }
}

#[test]
fn scans_of_all_sources_become_one_ranking() {
    let mut segments = vec![facts(7, 4, false), facts(8, 4, false)];
    let document = DocumentVersion::new(DocId::new(70), Revision::new(2));
    segments[0].documents = vec![None, Some(document)];
    segments[0].alive[3] = false;
    let mut active = no_active();
    active.row_count = 2;
    active.alive = vec![true, true];
    active.documents = vec![None, None];
    let options = SearchOptions::new(ScanOptions { thread_budget: 1 }).with_tier(SearchTier::Exact);
    let mut search = VectorSearch::begin(
        &bits(&[1.0]),
        MAX_DIMENSION,
        &segments,
        2,
        options,
        3,
        GraphBoundMode::Shared,
        options.explicit_tier(),
        None,
        Err(GraphProfileError::EpochUnstamped),
    )
    .expect("admitted");
    assert_eq!(
        search.next(&segments, false),
        Ok(SearchAction::ScanActive(ScanKind::SquaredL2))
    );
    search
        .accept_active(&segments, &active, &scanned(&[(0, 2.0), (1, 9.0)], 5), false)
        .expect("active");
    // Equal sizes: the smaller identity comes first.
    assert_eq!(
        search.next(&segments, false),
        Ok(SearchAction::ScanSealed {
            ordinal: 0,
            kind: ScanKind::SquaredL2
        })
    );
    search
        .accept_scan(&segments, &scanned(&[(1, 1.0), (2, 2.0)], 5), 1_000, None, false)
        .expect("first sealed");
    search
        .accept_scan(&segments, &scanned(&[(0, 0.5)], 6), 1_000, None, false)
        .expect("second sealed");
    assert_eq!(search.next(&segments, false), Ok(SearchAction::Finish));
    let outcome = search
        .finish(&segments, &active, closing())
        .expect("outcome");
    let order = outcome
        .candidates
        .iter()
        .map(|candidate| (candidate.row_id.source, candidate.row_id.local_row))
        .collect::<Vec<_>>();
    // Of the two rows at distance two the active one ranks first.
    assert_eq!(
        order,
        vec![
            (RowSource::Sealed(SegmentId { value: 8 }), 0),
            (RowSource::Sealed(SegmentId { value: 7 }), 1),
            (RowSource::Active, 0),
        ]
    );
    assert_eq!(outcome.candidates[1].document, Some(document));
    assert_eq!(outcome.stats.dims_touched, 30);
    assert_eq!(outcome.stats.bytes_read, 120);
    assert_eq!(outcome.stats.worker_thread_ids, vec![5, 6]);
    assert_eq!(outcome.stats.threads_used, 2);
    assert_eq!(outcome.generation, 6);
    assert_eq!(outcome.diagnostics.indexed_through_seq, 9);
    assert!(outcome.diagnostics.exact_rescore);
    assert!(!outcome.diagnostics.approximate);
    assert_eq!(outcome.diagnostics.returned, 3);
    let plans = &outcome.diagnostics.plan;
    assert_eq!(plans.len(), 3);
    assert_eq!(plans[0].tier, SegmentTier::ActiveScan);
    assert_eq!(plans[0].choice, PlanChoice::Scan(ScanReason::ActiveSegment));
    assert_eq!(plans[1].live_rows, 3);
}

#[test]
fn a_search_that_cannot_be_closed_returns_nothing() {
    let segments = Vec::new();
    let open = || begin(&[1.0], &segments, Some(SearchTier::Exact), Err(GraphProfileError::EpochUnstamped)).expect("admitted");
    let mut refused = closing();
    refused.recorded = Err(StoreError::Closed);
    refused.ceiling = Err(QueryError::Cancelled { partial: false });
    assert_eq!(
        open().finish(&segments, &no_active(), refused).err(),
        Some(QueryError::Store(StoreError::Closed))
    );
    let mut unbounded = closing();
    unbounded.ceiling = Err(QueryError::Cancelled { partial: false });
    assert_eq!(
        open().finish(&segments, &no_active(), unbounded).err(),
        Some(QueryError::Cancelled { partial: false })
    );
}

fn graph(nodes: u32, live: u64) -> GraphFacts {
    GraphFacts {
        source: RowSource::Active,
        node_count: nodes,
        live_count: live,
        tombstone_count: u64::from(nodes) - live,
    }
}

#[test]
fn a_traversal_asks_for_enough_to_replace_every_deleted_row() {
    let options = GraphSearchOptions::new(GraphSearchProfile::SiftClass);
    let plain = plan_traversal(&graph(100, 100), &options, 10).expect("plan");
    assert_eq!(
        (plain.segment_k, plain.target_live_k, plain.maximum_candidate_k),
        (10, 10, 10)
    );
    let holed = plan_traversal(&graph(100, 93), &options, 10).expect("plan");
    assert_eq!(
        (holed.segment_k, holed.target_live_k, holed.maximum_candidate_k),
        (10, 10, 17)
    );
    let small = plan_traversal(&graph(12, 3), &options, 10).expect("plan");
    assert_eq!(
        (small.segment_k, small.target_live_k, small.maximum_candidate_k),
        (10, 3, 12)
    );
    assert_eq!(
        plan_traversal(&graph(100, 100), &options.with_ef(9), 10),
        Err(QueryError::Graph(GraphSearchError::AdaptiveEf(
            AdaptiveEfError::ExplicitBelowK { k: 10, ef: 9 }
        )))
    );
}

#[test]
fn a_traversal_widens_until_its_live_rows_are_there() {
    let options = GraphSearchOptions::new(GraphSearchProfile::SiftClass).with_ef(20);
    let plan = plan_traversal(&graph(40, 30), &options, 4).expect("plan");
    assert_eq!(plan.maximum_candidate_k, 14);
    assert_eq!(plan.scratch_request(&options).candidate_k, 14);
    let counters = RoundCounters {
        dims_touched: 1,
        bytes_read: 2,
        visited_epoch_cleared: true,
        candidates_scored: 3,
        candidates_rescored: 4,
    };
    let alive = vec![false; 40];
    let mut traversal = GraphTraversal::start(plan, options);
    let mut asked = vec![traversal.request().candidate_k];
    let error = loop {
        match traversal.accept_round(&counters, &Vec::new(), &alive) {
            Ok(TraversalStep::Widen(request)) => asked.push(request.candidate_k),
            Ok(TraversalStep::Done) => panic!("no live row was found"),
            Err(error) => break error,
        }
    };
    assert_eq!(asked, vec![4, 8, 14]);
    assert_eq!(traversal.work.epoch_clears, 2);
    assert_eq!(
        error,
        QueryError::Graph(GraphSearchError::Geometry(Geometry::TraversalExhausted {
            candidates: 14,
            retained: 0,
            expected: 4
        }))
    );
}

#[test]
fn only_a_decisive_bound_rules_a_segment_out() {
    let single = |value: f32| Score {
        bits: value.to_bits(),
    };
    let range = |upper: f64, lower: f32| {
        Some(DistanceBounds {
            upper: Double {
                bits: upper.to_bits(),
            },
            lower: single(lower),
        })
    };
    assert!(segment_is_pruned(range(9.0, 2.5), Some(single(2.0))));
    assert!(!segment_is_pruned(range(9.0, 2.0), Some(single(2.0))));
    assert!(!segment_is_pruned(range(9.0, 2.5), None));
    assert!(!segment_is_pruned(None, Some(single(2.0))));
    assert!(!segment_is_pruned(
        range(f64::INFINITY, 2.5),
        Some(single(2.0))
    ));
    assert!(!segment_is_pruned(range(9.0, f32::NAN), Some(single(2.0))));
    assert!(segment_is_pruned(
        range(f64::from(f32::MAX), 2.5),
        Some(single(-0.0))
    ));
}

#[test]
fn an_exact_search_returns_the_best_of_all_rows() {
    let corpus = separated(&mut Random(0x51), &[0.5, 0.1, 0.9]);
    let wanted = query(0.4);
    let options = SearchOptions::new(ScanOptions { thread_budget: 1 }).with_tier(SearchTier::Exact);
    let mut search = VectorSearch::begin(
        &bits(&wanted),
        MAX_DIMENSION,
        &corpus.segments,
        0,
        options,
        K,
        GraphBoundMode::Shared,
        options.explicit_tier(),
        None,
        Err(GraphProfileError::EpochUnstamped),
    )
    .expect("admitted");
    let mut all = Vec::new();
    while let SearchAction::ScanSealed { ordinal, .. } =
        search.next(&corpus.segments, false).expect("next")
    {
        let scored: Vec<RescoredHit> = corpus.vectors[ordinal]
            .iter()
            .enumerate()
            .map(|(row_index, row)| RescoredHit {
                row_index,
                score: Score { bits: (-(squared_l2(row, &wanted) as f32)).to_bits() },
            })
            .collect();
        let outcome = rank_rescored(&scored, ROWS, DIMS, K, 1).expect("scanned");
        assert_eq!(outcome.candidates.len(), K);
        for hit in &scored {
            all.push((f32::from_bits(hit.score.bits), ordinal, hit.row_index));
        }
        search.accept_scan(&corpus.segments, &outcome, 1_000, None, false).expect("sealed");
    }
    let outcome = search.finish(&corpus.segments, &corpus.active, closing()).expect("outcome");
    all.sort_by(|left, right| right.0.total_cmp(&left.0).then(left.1.cmp(&right.1)));
    let found: Vec<f32> =
        outcome.candidates.iter().map(|found| f32::from_bits(found.score.bits)).collect();
    assert_eq!(found, all[..K].iter().map(|row| row.0).collect::<Vec<f32>>());
    assert!(outcome.diagnostics.exact_rescore);
    assert!(!outcome.diagnostics.approximate);
}
