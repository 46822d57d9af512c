use std::convert::Infallible;
use zeppelin_embed::accounting::Accounting;
use zeppelin_embed::candidates::{
    GraphSearchStats, LexicalCandidate, LexicalHit, ScanStats, SearchCandidate, SearchCounters,
    StructuredLexicalSource, VectorCandidate,
};
use zeppelin_embed::clock::ManualMonotonicClock;
use zeppelin_embed::control::{CancelToken, QueryCancellation, QueryControl, StopFlags};
use zeppelin_embed::corpus::ActiveFacts;
use zeppelin_embed::cross_score::{CrossScoreCache, CrossScorePolicy};
use zeppelin_embed::error::{QueryError, ScanError, StoreError, StoreErrorKind};
use zeppelin_embed::fusion::{
    FusionError, FusionLeg, FusionOutcome, FusionReport, FusionTermination, LegFailureKind,
};
use zeppelin_embed::hybrid::{
    corpus_rows, fuse_round, round_provenance, HybridRoundBuffers, HybridWork, UnionFusion,
    VectorDiagnosticsFlags,
};
use zeppelin_embed::hybrid_search::{
    consume_hybrid_test_fault, HybridSearch, HybridStep, HybridTierResolution,
};
use zeppelin_embed::identity::{
    drop_repeats, find_ranked, lexical_identity, relate_documents, relate_revisions, relate_rows,
    PhysicalIdentity, Relation,
};
use zeppelin_embed::ids::{
    DocId, DocumentVersion, EpochIdentity, GlobalDocId, GlobalRowId, Revision, RowSource,
    SegmentId,
};
use zeppelin_embed::materialize::{MaterializedRow, QueryMaterializer, ResultAddress};
use zeppelin_embed::observations::{
    begin_hybrid_fresh_round_test_observations, begin_hybrid_score_test_observations,
    take_hybrid_score_test_observations, HybridScoreObserver,
};
use zeppelin_embed::options::{HybridLegTestFault, ScanOptions, SearchOptions, SearchTier};
use zeppelin_embed::plan::ScanReason;
use zeppelin_embed::poll::board_poll;
use zeppelin_embed::rank::rank_items;
use zeppelin_embed::round::{build_round, plan_round, HybridAnchors, HybridRound};
use zeppelin_embed::score::{Double, Score};
use zeppelin_embed::store::Store;
use zeppelin_embed::vector_search::{SearchOutcome, VectorDiagnostics};
use zeppelin_embed::with_text::DeferredQuery;

fn score(value: f32) -> Score {
    Score { bits: value.to_bits() }
}

fn double(value: f64) -> Double {
    Double { bits: value.to_bits() }
}

fn version(doc: u128) -> Option<DocumentVersion> {
    Some(DocumentVersion::new(DocId::new(doc), Revision::new(1)))
}

fn active_row(row: u32) -> GlobalRowId {
    GlobalRowId::new(RowSource::Active, row)
}

fn vector_hit(row: u32, doc: u128, squared_l2: f32) -> SearchCandidate {
    SearchCandidate {
        row_id: active_row(row),
        document: version(doc),
        score: score(-squared_l2),
        exact_score: true,
    }
}

fn lexical_hit(row: u32, doc: u128, bm25: f64) -> LexicalHit {
    LexicalHit {
        doc: GlobalDocId { segment: 0, row },
        document: version(doc),
        bm25: double(bm25),
    }
}

fn identity(row: u32, doc: u128) -> PhysicalIdentity {
    PhysicalIdentity { row: active_row(row), document: version(doc) }
}

fn complaint(error: FusionError, expected: FusionLeg) -> String {
    match error {
        FusionError::Leg { leg, kind: LegFailureKind::Invariant, detail } if leg == expected => {
            detail
        }
        other => panic!("{other:?}"),
    }
}

struct Harness {
    cache: CrossScoreCache,
    buffers: HybridRoundBuffers,
    accounting: Accounting,
    sources: Vec<StructuredLexicalSource>,
    observer: HybridScoreObserver,
    lexical_maximum: f64,
}

impl Harness {
    fn new() -> Harness {
        Harness {
            cache: CrossScoreCache::new(None),
            buffers: HybridRoundBuffers::new(),
            accounting: Accounting::new(1 << 20, 1 << 20),
            sources: vec![StructuredLexicalSource::Active],
            observer: HybridScoreObserver::new(),
            lexical_maximum: 9.0,
        }
    }

    fn round(
        &mut self,
        vector: &Vec<SearchCandidate>,
        lexical: &Vec<LexicalHit>,
        width: usize,
        ceiling: Option<f64>,
        capture_rows: bool,
        distance: impl Fn(&LexicalHit) -> f32,
        bm25: impl Fn(&SearchCandidate) -> f64,
    ) -> Result<HybridRound, FusionError> {
        let segments = Vec::new();
        let plan = plan_round(
            &segments,
            &self.sources,
            vector,
            lexical,
            width,
            &mut self.cache,
            &mut self.buffers,
            &mut self.accounting,
            &mut self.observer,
        )?;
        let distances =
            plan.vector_needed.iter().map(|at| score(distance(&lexical[*at]))).collect();
        let scores = plan.lexical_needed.iter().map(|at| double(bm25(&vector[*at]))).collect();
        build_round(
            &plan,
            &segments,
            &self.sources,
            vector,
            lexical,
            width,
            HybridAnchors {
                vector_ceiling: ceiling.map(double),
                lexical_maximum: double(self.lexical_maximum),
            },
            capture_rows,
            &distances,
            &scores,
            SearchCounters::zero(),
            &mut self.cache,
            &mut self.buffers,
            &mut self.accounting,
        )
    }
}

fn vector(doc: u128, squared_l2: f32) -> VectorCandidate {
    VectorCandidate::exact(Some(DocId::new(doc)), score(squared_l2))
}

fn lexical(doc: u128, bm25: f64) -> LexicalCandidate {
    LexicalCandidate { document: Some(DocId::new(doc)), bm25: double(bm25) }
}

#[test]
fn a_round_scores_every_candidate_in_both_spaces() {
    let mut harness = Harness::new();
    let round = harness
        .round(
            &vec![vector_hit(0, 10, 1.0), vector_hit(1, 11, 2.0)],
            &vec![lexical_hit(1, 11, 5.0), lexical_hit(2, 12, 4.0)],
            2,
            Some(16.0),
            true,
            |hit| hit.doc.row as f32 * 4.0,
            |_| 0.5,
        )
        .expect("round");
    assert_eq!(
        harness.buffers.vector.items,
        vec![vector(10, 1.0), vector(11, 2.0), vector(12, 8.0)]
    );
    assert_eq!(
        harness.buffers.lexical.items,
        vec![lexical(11, 5.0), lexical(12, 4.0), lexical(10, 0.5)]
    );
    assert_eq!(round.cross_filled_vector, 1);
    assert_eq!(round.cross_filled_lexical, 1);
    assert_eq!(round.vector_scores_computed, 1);
    assert_eq!(round.lexical_scores_computed, 1);
    let bounds = round.vector_bounds.expect("bounds");
    assert_eq!(bounds.max_squared_l2, double(16.0));
    assert_eq!(bounds.next_unseen_squared_l2, None);
    assert_eq!(round.lexical_bounds.max_bm25, double(9.0));
    let addresses = round.addresses.expect("addresses");
    let keys: Vec<u128> = addresses.items.iter().map(|entry| entry.key.value).collect();
    assert_eq!(keys, vec![10, 11, 11, 12]);
}

#[test]
fn a_wider_round_scores_only_what_is_new() {
    let mut harness = Harness::new();
    let vectors = vec![vector_hit(0, 10, 1.0), vector_hit(1, 11, 2.0), vector_hit(2, 12, 3.0)];
    let hits = vec![lexical_hit(3, 13, 5.0), lexical_hit(4, 14, 4.0), lexical_hit(5, 15, 3.0)];
    let first = harness
        .round(&vectors, &hits, 1, Some(16.0), false, |hit| hit.doc.row as f32, |_| 0.25)
        .expect("round");
    assert!(first.addresses.is_none());
    assert_eq!((first.vector_scores_computed, first.lexical_scores_computed), (1, 1));
    assert_eq!(
        first.vector_bounds.expect("bounds").next_unseen_squared_l2,
        Some(score(2.0))
    );
    assert_eq!(first.lexical_bounds.next_unseen_bm25, Some(double(4.0)));
    let second = harness
        .round(&vectors, &hits, 3, Some(16.0), false, |hit| hit.doc.row as f32, |_| 0.125)
        .expect("round");
    assert_eq!((second.vector_scores_computed, second.lexical_scores_computed), (2, 2));
    assert_eq!((second.cross_filled_vector, second.cross_filled_lexical), (3, 3));
    assert_eq!(harness.buffers.lexical.items[3], lexical(10, 0.25));
    assert_eq!(harness.buffers.lexical.items[4], lexical(11, 0.125));
    assert_eq!(harness.buffers.vector.items.len(), 6);
}

#[test]
fn a_fresh_round_starts_from_an_empty_cache() {
    let vectors = vec![vector_hit(0, 10, 1.0), vector_hit(1, 11, 2.0), vector_hit(2, 12, 3.0)];
    let hits = vec![lexical_hit(3, 13, 5.0), lexical_hit(4, 14, 4.0), lexical_hit(5, 15, 3.0)];
    for fresh in [false, true] {
        let mut harness = Harness::new();
        if fresh {
            begin_hybrid_fresh_round_test_observations(&mut harness.observer);
        } else {
            begin_hybrid_score_test_observations(&mut harness.observer);
        }
        let mut computed = Vec::new();
        let mut charges = Vec::new();
        for width in [1, 2] {
            let round = harness
                .round(&vectors, &hits, width, Some(16.0), false, |_| 1.0, |_| 0.25)
                .expect("round");
            computed.push((round.vector_scores_computed, round.lexical_scores_computed));
            assert_eq!(round.cross_filled_vector, width);
            charges.push(harness.cache.entries.bytes);
            assert_eq!(
                harness.accounting.audit().temporary_bytes,
                harness.buffers.resident_bytes + harness.cache.entries.bytes
            );
        }
        let seen = take_hybrid_score_test_observations(&mut harness.observer);
        assert_eq!(seen.candidate_start_capacities, vec![(0, 0), (2, 2)]);
        assert_eq!(seen.candidate_peak_bytes, harness.buffers.peak_bytes);
        if fresh {
            assert_eq!(computed, vec![(1, 1), (2, 2)]);
            assert_eq!(harness.cache.entries.items.len(), 4);
            assert_eq!(charges[1], charges[0] * 2);
            assert_eq!(seen.cache_peak_bytes, charges[1]);
        } else {
            assert_eq!(computed, vec![(1, 1), (1, 1)]);
            assert_eq!(harness.cache.entries.items.len(), 4);
            assert_eq!(charges[1], charges[0] * 3);
            assert_eq!(seen.cache_peak_bytes, charges[0] + charges[1]);
        }
    }
}

/// A hybrid query over two disjoint lists, run to its end.
#[derive(Debug, PartialEq)]
struct Ran {
    hits: Vec<DocId>,
    generation: u64,
    report: FusionReport,
    scan: ScanStats,
    lexical: SearchCounters,
    rounds: Vec<(Vec<VectorCandidate>, Vec<LexicalCandidate>)>,
    texts: Vec<MaterializedRow>,
}

/// What an exact scan of all rows of dimension two reports.
fn scanned(rows: u64, candidates: Vec<SearchCandidate>) -> SearchOutcome {
    let stats = || ScanStats {
        dims_touched: rows * 2,
        bytes_read: rows * 2 * 4,
        threads_used: 1,
        worker_thread_ids: vec![7],
    };
    SearchOutcome {
        vector_ceiling: Some(double(1.0)),
        stats: stats(),
        graph_stats: GraphSearchStats::zero(),
        generation: 1,
        epoch: None,
        diagnostics: VectorDiagnostics {
            snapshot_generation: 1,
            indexed_through_seq: 1,
            approximate: false,
            exact_rescore: true,
            requested_k: candidates.len(),
            returned: candidates.len(),
            budget_exhausted: false,
            plan: vec![],
            scan: stats(),
            graph: GraphSearchStats::zero(),
            epoch: None,
            materialization: None,
            elapsed: 0,
        },
        candidates,
    }
}

fn disjoint_text(row: u32) -> String {
    if row < 200 {
        "copper".to_owned()
    } else {
        vec!["zeppelin"; 1 + (400 - row as usize) % 5].join(" ")
    }
}

/// Inverse document frequency of the word that half of the documents hold.
fn rarity() -> f64 {
    (1.0_f64 + 200.5 / 200.5).ln()
}

/// Score of a text that repeats the word and holds nothing else.
fn repeated(times: f64) -> f64 {
    rarity() * times * 1.9 / (times + 0.9 * (0.6 + 0.4 * times / 2.0))
}

/// Fuses a round that holds both scores of every candidate, each on its scale, and
/// proves the best hit where nothing unseen can reach it.
fn fuse(round: &HybridRound, buffers: &HybridRoundBuffers) -> UnionFusion {
    let vector = round.vector_bounds.expect("vector bounds");
    let ceiling = f64::from_bits(vector.max_squared_l2.bits);
    let maximum = f64::from_bits(round.lexical_bounds.max_bm25.bits);
    let near = |squared: Score| 1.0 - f64::from(f32::from_bits(squared.bits)) / ceiling;
    let relevant = |bm25: Double| f64::from_bits(bm25.bits) / maximum;
    let mut best: Option<(f64, DocId)> = None;
    for candidate in &buffers.vector.items {
        let text = buffers
            .lexical
            .items
            .iter()
            .find(|found| found.document == candidate.document)
            .expect("every candidate has both scores");
        let fused = near(candidate.squared_l2) + relevant(text.bm25);
        if best.map_or(true, |(highest, _)| fused > highest) {
            best = Some((fused, candidate.document.expect("document")));
        }
    }
    let (highest, key) = best.expect("candidates");
    let unseen = vector.next_unseen_squared_l2.map_or(0.0, near)
        + round.lexical_bounds.next_unseen_bm25.map_or(0.0, relevant);
    let termination = if highest > unseen {
        FusionTermination::WindowStable
    } else {
        FusionTermination::WindowUnproven
    };
    UnionFusion {
        outcome: Ok(FusionOutcome {
            hits: vec![key],
            report: FusionReport { termination, rounds: 0, budget_exhausted: false },
        }),
        start_capacity: 0,
        peak_bytes: 0,
    }
}

fn disjoint_query(wanted: &[f32; 2]) -> Ran {
    let options = plain().with_tier(SearchTier::Exact);
    let distance = |row: u32| {
        let difference = row as f32 * 0.0025 - wanted[1];
        (1.0 - wanted[0]) * (1.0 - wanted[0]) + difference * difference
    };
    let bm25 = |row: u32| repeated(disjoint_text(row).matches("zeppelin").count() as f64);
    let mut vectors: Vec<SearchCandidate> =
        (0..400).map(|row| vector_hit(row, u128::from(row) + 1, distance(row))).collect();
    vectors.sort_by(|left, right| {
        f32::from_bits(right.score.bits).total_cmp(&f32::from_bits(left.score.bits))
    });
    let mut hits: Vec<LexicalHit> =
        (200..400).map(|row| lexical_hit(row, u128::from(row) + 1, bm25(row))).collect();
    hits.sort_by(|left, right| {
        f64::from_bits(right.bm25.bits).total_cmp(&f64::from_bits(left.bm25.bits))
    });
    let mut harness = Harness::new();
    harness.lexical_maximum = rarity() * 1.9;
    let mut search = HybridSearch::begin(options, false, 400, 1, 8).expect("search");
    let mut work = HybridWork::new();
    let mut rounds = Vec::new();
    loop {
        let k = search.producer_width();
        let outcome = scanned(400, vectors.iter().take(k).copied().collect());
        let mut counters = SearchCounters::zero();
        counters.docs_evaluated = 200;
        work.complete_round(&outcome.stats, outcome.graph_stats, counters).expect("round");
        let lexical: Vec<_> = hits.iter().take(k).copied().collect();
        let round = harness
            .round(
                &outcome.candidates,
                &lexical,
                search.width,
                Some(1.0),
                false,
                |hit| distance(hit.doc.row),
                |candidate| bm25(candidate.row_id.local_row),
            )
            .expect("round");
        work.complete_fill(&round, wanted.len()).expect("fill");
        rounds.push((
            harness.buffers.vector.items.clone(),
            harness.buffers.lexical.items.clone(),
        ));
        let provenance = round_provenance(
            VectorDiagnosticsFlags {
                approximate: outcome.diagnostics.approximate,
                exact_rescore: outcome.diagnostics.exact_rescore,
            },
            outcome.candidates.len(),
            lexical.len(),
            search.width,
        );
        let fusion = fuse(&round, &harness.buffers);
        let fused =
            fuse_round(fusion, provenance, false, &mut harness.observer).expect("fused");
        if search.accept_round(fused.report.termination) == HybridStep::Done {
            let best = fused.hits[0];
            let rows = ActiveFacts {
                row_count: 400,
                has_text: true,
                indexed_through_seq: 1,
                documents: (0..400).map(|row| version(row + 1)).collect(),
                alive: vec![true; 400],
                texts: (0..400).map(|row| Some(disjoint_text(row))).collect(),
            };
            let mut flags = StopFlags::new();
            let control = QueryControl::Cancel(CancelToken::new(&mut flags));
            let cancellation = QueryCancellation::new(control, flags.add_flag());
            let row = best.value as u32 - 1;
            let text = QueryMaterializer::new(cancellation)
                .text(
                    &vec![],
                    &rows,
                    Ok(ResultAddress { row_id: active_row(row), document: version(best.value) }),
                    Ok(()),
                    false,
                    &mut board_poll(cancellation, &mut flags, &ManualMonotonicClock::new()),
                )
                .expect("text");
            let ended =
                search.finish_hybrid(work, outcome, vec![], fused, &round, &harness.buffers, 1, 0);
            return Ran {
                hits: ended.hits,
                generation: ended.generation,
                report: ended.diagnostics.report,
                scan: ended.diagnostics.scan,
                lexical: ended.diagnostics.lexical,
                rounds,
                texts: vec![text],
            };
        }
    }
}

#[test]
fn astra_19_overlapped_hybrid_matches_serial_scores_and_text() {
    let serial = disjoint_query(&[1.0, 0.0]);
    let calls = std::cell::Cell::new(0);
    let prepare = || {
        calls.set(calls.get() + 1);
        Ok::<_, Infallible>([1.0, 0.0])
    };
    let mut flags = StopFlags::new();
    let control = QueryControl::Cancel(CancelToken::new(&mut flags));
    let cancellation = QueryCancellation::new(control, flags.add_flag());
    let ran: DeferredQuery<Ran, (), Infallible> = match prepare() {
        Ok(wanted) => DeferredQuery::Searched(Ok(disjoint_query(&wanted))),
        Err(failure) => DeferredQuery::Unprepared { failure: Some(failure), lexical: Ok(()) },
    };
    let overlapped =
        match Store::search_hybrid_with_text_deferred(ran, &cancellation, &mut flags, 0) {
            Ok(found) => found,
            Err(_) => panic!("overlapped query"),
        };
    assert_eq!(calls.get(), 1, "widening must not repeat embedding");
    assert_eq!(overlapped, serial);
    assert_eq!(overlapped.report.rounds, 3);
    assert_eq!(overlapped.rounds.len(), 3);
    assert_eq!(overlapped.scan.dims_touched, 2_800);
    assert_eq!(overlapped.scan.bytes_read, 11_200);
    assert_eq!(overlapped.scan.threads_used, 1);
    assert_eq!(overlapped.lexical.docs_evaluated, 600);
    assert_eq!(overlapped.report.termination, FusionTermination::WindowStable);
    assert_eq!(overlapped.hits, vec![DocId::new(202)]);
    assert_eq!(overlapped.texts[0].text, disjoint_text(201));
}

#[test]
fn the_last_round_keeps_no_scores() {
    let mut harness = Harness::new();
    let vectors = vec![vector_hit(0, 10, 1.0), vector_hit(1, 11, 2.0)];
    let hits = vec![lexical_hit(3, 13, 5.0)];
    let mut computed = |width| {
        let round = harness
            .round(&vectors, &hits, width, Some(16.0), false, |_| 1.0, |_| 1.0)
            .expect("round");
        (round.vector_scores_computed, round.lexical_scores_computed)
    };
    assert_eq!(computed(1), (1, 1));
    assert_eq!(computed(1), (0, 0));
    assert_eq!(computed(2), (0, 1));
    assert_eq!(computed(2), (0, 1));
}

#[test]
fn a_round_refuses_what_it_cannot_account_for() {
    let mut harness = Harness::new();
    let vectors = vec![vector_hit(0, 10, 1.0)];
    let hits = vec![lexical_hit(1, 11, 5.0)];
    let error = harness
        .round(&vectors, &hits, 1, None, false, |_| 1.0, |_| 1.0)
        .expect_err("no ceiling");
    assert_eq!(
        complaint(error, FusionLeg::Vector),
        "bounded hybrid vector leg did not report the farthest alive row"
    );
    let mut harness = Harness::new();
    let foreign = vec![LexicalHit {
        doc: GlobalDocId { segment: 4, row: 0 },
        document: version(11),
        bm25: double(1.0),
    }];
    let error = harness
        .round(&vectors, &foreign, 1, Some(4.0), false, |_| 1.0, |_| 1.0)
        .expect_err("foreign source");
    assert!(!complaint(error, FusionLeg::Lexical).is_empty());
    let mut harness = Harness::new();
    let elsewhere = vec![lexical_hit(7, 10, 5.0)];
    let conflict = harness.round(&vectors, &elsewhere, 1, Some(4.0), true, |_| 1.0, |_| 1.0);
    assert!(conflict.is_err());
    let mut harness = Harness::new();
    harness.accounting = Accounting::new(8, 8);
    let refused = harness
        .round(&vectors, &hits, 1, Some(4.0), false, |_| 1.0, |_| 1.0)
        .expect_err("budget");
    match refused {
        FusionError::Leg { kind: LegFailureKind::Store(kind), .. } => {
            assert_eq!(kind, StoreErrorKind::BudgetExceeded)
        }
        other => panic!("{other:?}"),
    }
    assert_eq!(harness.accounting.resident, 0);
}

#[test]
fn extra_and_missing_cross_scores_are_invariants() {
    for (scores, expected) in [
        (vec![], "hybrid candidate has no completed exact lexical score"),
        (
            vec![double(1.0), double(2.0)],
            "hybrid cross-scorer returned an unexpected extra lexical score",
        ),
    ] {
        let mut harness = Harness::new();
        let segments = Vec::new();
        let vectors = vec![vector_hit(0, 10, 1.0)];
        let hits = Vec::new();
        let plan = plan_round(
            &segments,
            &harness.sources,
            &vectors,
            &hits,
            1,
            &mut harness.cache,
            &mut harness.buffers,
            &mut harness.accounting,
            &mut harness.observer,
        )
        .expect("plan");
        assert_eq!(plan.lexical_needed, vec![0]);
        let error = build_round(
            &plan,
            &segments,
            &harness.sources,
            &vectors,
            &hits,
            1,
            HybridAnchors { vector_ceiling: Some(double(1.0)), lexical_maximum: double(1.0) },
            false,
            &vec![],
            &scores,
            SearchCounters::zero(),
            &mut harness.cache,
            &mut harness.buffers,
            &mut harness.accounting,
        )
        .expect_err("refused");
        assert_eq!(complaint(error, FusionLeg::Lexical), expected);
    }
}

#[test]
fn round_scores_are_read_back_by_row_and_policy() {
    let epoch = Some(EpochIdentity { embedding: 1, tokenizer: 2 });
    let mut cache = CrossScoreCache::new(epoch);
    let mut accounting = Accounting::new(1 << 16, 1 << 16);
    let mut observer = HybridScoreObserver::new();
    assert!(cache.reserve_round(3, &mut accounting, &mut observer).is_ok());
    let distance = cache.key(identity(4, 40), CrossScorePolicy::SquaredL2F32);
    let bm25 = cache.key(identity(4, 40), CrossScorePolicy::Bm25Beir);
    cache.insert(distance, 77);
    cache.insert(bm25, 88);
    cache.insert(cache.key(identity(3, 30), CrossScorePolicy::Bm25Beir), 99);
    assert_eq!(cache.get(distance), None);
    assert!(cache.finish_round().is_ok());
    assert_eq!(cache.get(distance), Some(77));
    assert_eq!(cache.get(bm25), Some(88));
    assert_eq!(
        cache.get(cache.key(identity(3, 30), CrossScorePolicy::Bm25Beir)),
        Some(99)
    );
    assert_eq!(
        cache.get(cache.key(identity(3, 30), CrossScorePolicy::SquaredL2F32)),
        None
    );
    assert!(cache.reserve_round(1, &mut accounting, &mut observer).is_ok());
    cache.insert(bm25, 1);
    let error = cache.finish_round().expect_err("duplicate");
    assert_eq!(
        complaint(error, FusionLeg::Lexical),
        "hybrid cross-score cache contains a duplicate physical row/policy"
    );
}

#[test]
fn identities_are_ordered_by_row_and_document() {
    let sealed = GlobalRowId::new(RowSource::Sealed(SegmentId { value: 1 }), 0);
    assert_eq!(relate_rows(active_row(9), sealed), Relation::Before);
    assert_eq!(relate_rows(sealed, active_row(9)), Relation::After);
    assert_eq!(relate_rows(sealed, sealed), Relation::Same);
    assert_eq!(relate_documents(None, version(0)), Relation::Before);
    assert_eq!(relate_documents(version(2), version(1)), Relation::After);
    let later = Some(DocumentVersion::new(DocId::new(1), Revision::new(2)));
    assert_eq!(relate_documents(version(1), later), Relation::Same);
    assert_eq!(relate_revisions(version(1), later), Relation::Before);
    let mut items = vec![identity(2, 5), identity(1, 5), identity(2, 5), identity(1, 4)];
    rank_items(&mut items);
    drop_repeats(&mut items);
    assert_eq!(items, vec![identity(1, 4), identity(1, 5), identity(2, 5)]);
    assert_eq!(find_ranked(&items, 3, &identity(2, 5)), Some(2));
    assert_eq!(find_ranked(&items, 2, &identity(2, 5)), None);
    assert_eq!(find_ranked(&items, 3, &identity(0, 5)), None);
}

#[test]
fn a_lexical_hit_is_resolved_to_its_row() {
    let segments = vec![SegmentId { value: 8 }];
    let sources = vec![
        StructuredLexicalSource::Sealed(0),
        StructuredLexicalSource::Active,
        StructuredLexicalSource::Sealed(5),
    ];
    let hit = |segment| LexicalHit {
        doc: GlobalDocId { segment, row: 6 },
        document: version(1),
        bm25: double(1.0),
    };
    let found = lexical_identity(&segments, &sources, &hit(0)).expect("sealed");
    assert_eq!(found.row, GlobalRowId::new(RowSource::Sealed(segments[0]), 6));
    assert_eq!(found.document, version(1));
    let found = lexical_identity(&segments, &sources, &hit(1)).expect("active");
    assert_eq!(found.row, active_row(6));
    assert!(lexical_identity(&segments, &sources, &hit(2)).is_err());
    assert!(lexical_identity(&segments, &sources, &hit(3)).is_err());
}

fn plain() -> SearchOptions {
    SearchOptions::new(ScanOptions { thread_budget: 1 })
}

#[test]
fn a_hybrid_query_widens_until_it_is_proven_or_spent() {
    let mut search = HybridSearch::begin(plain(), false, 1_000, 4, 2).expect("search");
    assert_eq!(search.width, 50);
    assert_eq!(search.tier_resolution, Some(HybridTierResolution::Exact));
    assert_eq!(search.options.explicit_tier(), Some(SearchTier::Exact));
    assert_eq!(search.producer_width(), 51);
    assert_eq!(search.accept_round(FusionTermination::WindowUnproven), HybridStep::Again);
    assert_eq!((search.width, search.rounds, search.budget_exhausted), (100, 2, false));
    assert_eq!(search.accept_round(FusionTermination::WindowUnproven), HybridStep::Again);
    assert_eq!((search.width, search.rounds, search.budget_exhausted), (1_000, 3, true));
    assert_eq!(search.accept_round(FusionTermination::WindowUnproven), HybridStep::Done);
    let report = search.finish(FusionReport {
        termination: FusionTermination::WindowUnproven,
        rounds: 1,
        budget_exhausted: false,
    });
    assert_eq!(
        report,
        FusionReport {
            termination: FusionTermination::BudgetFullMaterialization,
            rounds: 3,
            budget_exhausted: true,
        }
    );
    let mut proven = HybridSearch::begin(plain(), true, 1_000, 4, 2).expect("search");
    assert_eq!(proven.accept_round(FusionTermination::WindowStable), HybridStep::Done);
    assert_eq!(proven.width, 50);
}

#[test]
fn a_round_without_a_chosen_tier_leaves_the_graph_when_it_is_too_wide() {
    let mut search = HybridSearch::begin(plain(), true, 900, 4, 9).expect("search");
    assert_eq!(search.tier_resolution, Some(HybridTierResolution::Auto));
    let first = search.vector_round();
    assert_eq!((first.k, first.scan_reason), (51, None));
    assert_eq!(first.options.explicit_tier(), None);
    let _ = search.accept_round(FusionTermination::WindowUnproven);
    let second = search.vector_round();
    assert_eq!(second.k, 101);
    assert_eq!(second.scan_reason, Some(ScanReason::WideningCap { ef: 404, rows: 900 }));
    assert_eq!(second.options.explicit_tier(), Some(SearchTier::Exact));
    search.width = 900;
    assert_eq!(search.vector_round().scan_reason, Some(ScanReason::FullMaterialization));
    let chosen = plain().with_tier(SearchTier::Scan);
    let mut search = HybridSearch::begin(chosen, true, 900, 4, 9).expect("search");
    search.width = 900;
    let round = search.vector_round();
    assert_eq!((round.options, round.scan_reason), (chosen, None));
    assert_eq!(search.tier_resolution, None);
}

#[test]
fn a_query_that_may_not_widen_asks_for_the_corpus() {
    let search = HybridSearch::begin(plain(), false, 700, usize::MAX, 0).expect("search");
    assert_eq!(search.width, 700);
    let refused = HybridSearch::begin(plain(), false, 700, usize::MAX, 1);
    match refused {
        Err(FusionError::Leg { kind: LegFailureKind::Scan, .. }) => {}
        other => panic!("{other:?}"),
    }
    assert_eq!(corpus_rows(3, &vec![4, 5]), Ok(12));
    assert!(corpus_rows(usize::MAX, &vec![1]).is_err());
}

#[test]
fn a_leg_fault_fires_once_on_its_leg() {
    let mut fault = Some(HybridLegTestFault::Panic(FusionLeg::Lexical));
    assert!(!consume_hybrid_test_fault(&mut fault, FusionLeg::Vector));
    assert!(consume_hybrid_test_fault(&mut fault, FusionLeg::Lexical));
    assert!(!consume_hybrid_test_fault(&mut fault, FusionLeg::Lexical));
    assert_eq!(fault, None);
}

#[test]
fn a_query_failure_keeps_its_kind_in_a_leg() {
    let lexical = |error, inner| FusionError::from_query(error, FusionLeg::Lexical, inner);
    assert_eq!(
        lexical(QueryError::Timeout { partial: true }, ""),
        FusionError::Timeout { partial: true }
    );
    assert_eq!(
        lexical(QueryError::Cancelled { partial: false }, ""),
        FusionError::Cancelled { partial: false }
    );
    assert_eq!(
        lexical(QueryError::ReadCancelled { partial: false }, ""),
        FusionError::ReadCancelled { partial: false }
    );
    match lexical(QueryError::Store(StoreError::Closing), "closing") {
        FusionError::Leg { leg, kind, detail } => {
            assert_eq!(leg, FusionLeg::Lexical);
            assert_eq!(kind, LegFailureKind::Store(StoreErrorKind::Closing));
            assert!(detail.contains("closing"));
        }
        other => panic!("{other:?}"),
    }
    match lexical(QueryError::Scan(ScanError::ZeroDimension), "zero") {
        FusionError::Leg { kind: LegFailureKind::Scan, .. } => {}
        other => panic!("{other:?}"),
    }
}

#[test]
fn observations_are_kept_only_between_begin_and_take() {
    let mut observer = HybridScoreObserver::new();
    observer.vector_row(identity(1, 1));
    assert!(take_hybrid_score_test_observations(&mut observer).vector_rows.is_empty());
    begin_hybrid_score_test_observations(&mut observer);
    assert!(!observer.fresh_round_test_control());
    observer.vector_row(identity(1, 1));
    observer.vector_row(identity(2, 2));
    observer.lexical_row(identity(3, 3));
    observer.cache_bytes(40);
    observer.cache_bytes(30);
    observer.round_start(2, 3);
    observer.candidate_bytes(5);
    observer.candidate_bytes(9);
    observer.union_start(4);
    observer.union_bytes(8);
    observer.union_bytes(6);
    let seen = take_hybrid_score_test_observations(&mut observer);
    assert_eq!(seen.vector_rows, vec![identity(1, 1), identity(2, 2)]);
    assert_eq!(seen.lexical_rows, vec![identity(3, 3)]);
    assert_eq!(seen.cache_peak_bytes, 40);
    assert_eq!(seen.candidate_start_capacities, vec![(2, 3)]);
    assert_eq!(seen.candidate_peak_bytes, 9);
    assert_eq!(seen.union_start_capacities, vec![4]);
    assert_eq!(seen.union_peak_bytes, 8);
    assert!(take_hybrid_score_test_observations(&mut observer).vector_rows.is_empty());
    begin_hybrid_fresh_round_test_observations(&mut observer);
    assert!(observer.fresh_round_test_control());
    let _ = take_hybrid_score_test_observations(&mut observer);
    assert!(!observer.fresh_round_test_control());
}
