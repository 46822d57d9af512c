use zeppelin_embed::accounting::Accounting;
use zeppelin_embed::candidates::{
    LexicalHit, SearchCandidate, SearchCounters, StructuredLexicalSource,
};
use zeppelin_embed::clock::ManualMonotonicClock;
use zeppelin_embed::control::{
    CancelToken, Deadline, QueryCancellation, QueryControl, StopFlags, StopState,
};
use zeppelin_embed::corpus::{ActiveFacts, RowFault, SegmentFacts, UnreadDocument, UnreadRow};
use zeppelin_embed::cross_fill::{
    begin_cross_fill, candidate_squared_l2, cross_fill_row, cross_fill_source, exact_squared_l2,
    CrossFillRow,
};
use zeppelin_embed::cross_lexical::{
    cross_score_lexical, route_missing, scatter_scores, structured_cross_scores, BatchScores,
    RoutedRow,
};
use zeppelin_embed::error::{
    IoError, IoErrorKind, QueryError, ScanError, Schema, SegmentError, StoreError,
};
use zeppelin_embed::fusion::{FusionError, FusionLeg, LegFailureKind};
use zeppelin_embed::ids::{
    DocId, DocumentVersion, GlobalDocId, GlobalRowId, Revision, RowSource, SegmentId,
};
use zeppelin_embed::legs::{StructuredLeg, TermLeg};
use zeppelin_embed::lexical::{
    assemble_lexical_index, exact_hybrid_lexical_search, exact_hybrid_lexical_strategy,
    join_hits, leg_width, map_fusion_lexical_assembly_error,
    map_store_controlled_lexical_error, map_store_lexical_assembly_error,
    map_store_lexical_document_error, structured_lexical_document, structured_lexical_row,
    term_expansions, ControlledSearchError, LexicalAssemblyError, LexicalDocumentError,
    LexicalExpansion, LexicalMatchKind, LexicalStrategy, ScoredDoc, SourceFault,
    StoreLexicalError, UnopenedSource,
};
use zeppelin_embed::lexical_search::{find_documents, LexicalResult, ScoredList, Snippet};
use zeppelin_embed::identity::PhysicalIdentity;
use zeppelin_embed::observations::{
    begin_hybrid_score_test_observations, take_hybrid_score_test_observations,
    HybridScoreObserver,
};
use zeppelin_embed::open::{OpenPlan, OpenStage, RecoveredActive};
use zeppelin_embed::options::OpenOptions;
use zeppelin_embed::poll::{board_poll, StopPoll, StopSource};
use zeppelin_embed::round::RoundPlan;
use zeppelin_embed::score::{Double, Score};
use zeppelin_embed::snapshot::PublishedSnapshot;
use zeppelin_embed::store::{ActiveHandle, Store};
use zeppelin_embed::structured::{
    aggregate_hits, numeric_below, rank_structured, RankedDoc,
};

fn double(value: f64) -> Double {
    Double { bits: value.to_bits() }
}

fn version(doc: u128) -> DocumentVersion {
    DocumentVersion::new(DocId::new(doc), Revision::new(1))
}

fn sealed(id: u128, docs: &[u128]) -> SegmentFacts {
    SegmentFacts {
        id: SegmentId { value: id },
        row_count: docs.len() as u32,
        dims: 4,
        scheme: 4,
        has_graph: false,
        has_postings: true,
        documents: docs.iter().map(|doc| Some(version(*doc))).collect(),
        alive: vec![true; docs.len()],
        texts: Some(docs.iter().map(|doc| Some(format!("text {doc}"))).collect()),
    }
}

fn active(docs: &[u128]) -> ActiveFacts {
    ActiveFacts {
        row_count: docs.len(),
        has_text: !docs.is_empty(),
        indexed_through_seq: 9,
        documents: docs.iter().map(|doc| Some(version(*doc))).collect(),
        alive: vec![true; docs.len()],
        texts: docs.iter().map(|doc| Some(format!("text {doc}"))).collect(),
    }
}

fn doc(segment: u32, row: u32) -> GlobalDocId {
    GlobalDocId { segment, row }
}

fn scored(segment: u32, row: u32, score: f64) -> ScoredDoc {
    ScoredDoc { doc: doc(segment, row), score: double(score) }
}

fn damaged() -> SegmentError {
    SegmentError::Other("damaged".to_owned())
}

fn absent() -> StoreLexicalError {
    StoreLexicalError::Query(QueryError::Store(StoreError::ActiveRowOverflow))
}

fn both() -> Vec<StructuredLexicalSource> {
    vec![StructuredLexicalSource::Sealed(0), StructuredLexicalSource::Active]
}

fn control(flags: &mut StopFlags) -> QueryControl {
    QueryControl::Cancel(CancelToken::new(flags))
}

fn cancellation(flags: &mut StopFlags) -> QueryCancellation {
    let control = control(flags);
    let lease = flags.add_flag();
    QueryCancellation::new(control, lease)
}

fn plain_schema() -> Schema {
    Schema { columns: vec![], label: "timestamp only".to_owned() }
}

fn open(flags: &mut StopFlags) -> Store {
    let options = OpenOptions::new();
    let accounting = Accounting::new(options.max_resident_bytes, options.max_temp_bytes);
    let mut plan = OpenPlan::begin("/stores/a".to_owned(), options, plain_schema(), Ok(()))
        .expect("begin");
    plan.directory_ensured(Ok(true)).expect("directory");
    plan.lock_acquired(Ok(())).expect("lock");
    plan.manifest_probed(Err(IoError {
        kind: IoErrorKind::NotFound,
        message: "no manifest".to_owned(),
    }))
    .expect("probe");
    plan.snapshot_loaded(Ok(PublishedSnapshot::empty(3, plain_schema(), flags)))
        .expect("snapshot");
    plan.tokenizer_built(Ok(1)).expect("tokenizer");
    plan.active_recovered(Ok(RecoveredActive {
        active: ActiveHandle { generation: 3, rows: 0 },
        wal: false,
    }))
    .expect("active");
    if plan.stage == OpenStage::CommitManifest {
        plan.manifest_committed(Ok(())).expect("manifest");
    }
    if plan.stage == OpenStage::CreateWal {
        plan.wal_ready(Ok(())).expect("log");
    }
    if plan.stage == OpenStage::StartBackground {
        plan.background_started(Ok(())).expect("background");
    }
    plan.publish(1, accounting, None, None)
}

#[test]
fn sources_are_assembled_in_snapshot_order() {
    let mut bare = sealed(2, &[20]);
    bare.has_postings = false;
    let segments = vec![sealed(1, &[10]), bare, sealed(3, &[30])];
    assert_eq!(
        assemble_lexical_index(&segments, &active(&[1]), true, &vec![], None),
        Ok(vec![
            StructuredLexicalSource::Sealed(0),
            StructuredLexicalSource::Sealed(2),
            StructuredLexicalSource::Active,
        ])
    );
    assert_eq!(
        assemble_lexical_index(&vec![], &active(&[]), true, &vec![], None),
        Ok(vec![])
    );
    let mut anonymous = sealed(4, &[40]);
    anonymous.documents = vec![None];
    let segments = vec![anonymous];
    assert_eq!(
        assemble_lexical_index(&segments, &active(&[]), true, &vec![], None),
        Err(LexicalAssemblyError::MissingDocumentIdentity(SegmentId { value: 4 }))
    );
    assert_eq!(
        assemble_lexical_index(&segments, &active(&[]), false, &vec![], None),
        Ok(vec![StructuredLexicalSource::Sealed(0)])
    );
}

#[test]
fn the_first_source_that_cannot_be_opened_decides() {
    let mut bare = sealed(1, &[10]);
    bare.has_postings = false;
    let segments = vec![bare, sealed(2, &[20])];
    let stop = ScanError::Cancelled { partial: false };
    let assemble = |checks: &Vec<Result<(), ScanError>>, ordinal, fault| {
        assemble_lexical_index(
            &segments,
            &active(&[1]),
            true,
            checks,
            Some(UnopenedSource { ordinal, fault }),
        )
    };
    assert_eq!(
        assemble(&vec![], 0, SourceFault::Postings(StoreError::Closing)),
        Err(LexicalAssemblyError::Store(StoreError::Closing))
    );
    assert_eq!(assemble(&vec![], 0, SourceFault::Rows(StoreError::Closing)).map(|s| s.len()), Ok(2));
    assert_eq!(
        assemble(&vec![], 1, SourceFault::Identity(damaged())),
        Err(LexicalAssemblyError::Store(StoreError::Segment(damaged())))
    );
    assert_eq!(
        assemble(&vec![], 1, SourceFault::Rows(StoreError::Closing)),
        Err(LexicalAssemblyError::Store(StoreError::Closing))
    );
    assert_eq!(
        assemble(&vec![], 2, SourceFault::Index("full".to_owned())),
        Err(LexicalAssemblyError::Lexical("full".to_owned()))
    );
    assert_eq!(
        assemble(&vec![Err(stop)], 0, SourceFault::Postings(StoreError::Closing)),
        Err(LexicalAssemblyError::Cancelled(stop))
    );
}

#[test]
fn assembly_failures_are_reported_where_they_surface() {
    let stop = ScanError::Timeout { partial: false };
    assert_eq!(
        map_store_lexical_assembly_error(LexicalAssemblyError::Store(StoreError::Closing)),
        StoreLexicalError::Query(QueryError::Store(StoreError::Closing))
    );
    assert_eq!(
        map_store_lexical_assembly_error(LexicalAssemblyError::Lexical("full".to_owned())),
        StoreLexicalError::Filter("full".to_owned())
    );
    assert_eq!(
        map_store_lexical_assembly_error(LexicalAssemblyError::MissingDocumentIdentity(SegmentId {
            value: 4
        })),
        StoreLexicalError::MissingDocumentIdentity { segment_id: SegmentId { value: 4 } }
    );
    assert_eq!(
        map_store_lexical_assembly_error(LexicalAssemblyError::Cancelled(stop)),
        StoreLexicalError::Query(QueryError::Scan(stop))
    );
    assert_eq!(
        map_fusion_lexical_assembly_error(LexicalAssemblyError::Cancelled(stop), ""),
        FusionError::Timeout { partial: false }
    );
    match map_fusion_lexical_assembly_error(LexicalAssemblyError::Lexical("full".to_owned()), "") {
        FusionError::Leg { leg: FusionLeg::Lexical, kind: LegFailureKind::Lexical, detail } => {
            assert_eq!(detail, "full")
        }
        other => panic!("{other:?}"),
    }
    assert_eq!(
        map_store_controlled_lexical_error(ControlledSearchError::Index("bad".to_owned())),
        StoreLexicalError::Filter("bad".to_owned())
    );
    assert_eq!(
        map_store_controlled_lexical_error(ControlledSearchError::Control(stop)),
        StoreLexicalError::Query(QueryError::Scan(stop))
    );
}

#[test]
fn a_hit_is_joined_with_its_pinned_document() {
    let segments = vec![sealed(1, &[10, 11])];
    let rows = active(&[20]);
    let find = |place, required, unread| {
        structured_lexical_document(&segments, &rows, &both(), place, required, unread)
    };
    assert_eq!(find(doc(0, 1), true, None), Ok(Some(version(11))));
    assert_eq!(find(doc(1, 0), true, None), Ok(Some(version(20))));
    assert_eq!(find(doc(0, 5), false, None), Ok(None));
    assert_eq!(
        find(doc(0, 5), true, None),
        Err(LexicalDocumentError::MissingDocumentIdentity(SegmentId { value: 1 }))
    );
    assert_eq!(find(doc(1, 5), true, None), Err(LexicalDocumentError::ActiveRowAbsent));
    assert_eq!(find(doc(2, 0), true, None), Err(LexicalDocumentError::SourceOrdinalOutOfRange));
    assert_eq!(
        find(doc(0, 1), true, Some(damaged())),
        Err(LexicalDocumentError::Segment(damaged()))
    );
    assert_eq!(find(doc(1, 0), true, Some(damaged())), Ok(Some(version(20))));
    assert_eq!(
        structured_lexical_document(
            &vec![],
            &rows,
            &both(),
            doc(0, 0),
            true,
            None
        ),
        Err(LexicalDocumentError::SealedSourceAbsent)
    );
    assert_eq!(
        map_store_lexical_document_error(LexicalDocumentError::Segment(damaged())),
        StoreLexicalError::Query(QueryError::Store(StoreError::Segment(damaged())))
    );
    assert_eq!(map_store_lexical_document_error(LexicalDocumentError::RowOverflow), absent());
}

#[test]
fn a_leg_joins_all_its_hits_or_names_the_first_that_fails() {
    let segments = vec![sealed(1, &[10, 11])];
    let rows = active(&[20]);
    let hits = vec![scored(0, 1, 3.0), scored(1, 0, 2.0), scored(0, 9, 1.0)];
    let joined = join_hits(&segments, &rows, &both(), &hits, None).expect("joined");
    assert_eq!(
        joined,
        vec![
            LexicalHit { doc: doc(0, 1), document: Some(version(11)), bm25: double(3.0) },
            LexicalHit { doc: doc(1, 0), document: Some(version(20)), bm25: double(2.0) },
            LexicalHit { doc: doc(0, 9), document: None, bm25: double(1.0) },
        ]
    );
    let unread = Some(UnreadDocument { hit: 2, error: damaged() });
    assert_eq!(
        join_hits(&segments, &rows, &both(), &hits, unread.clone()),
        Err(LexicalDocumentError::Segment(damaged()))
    );
}

fn found(hits: Vec<ScoredDoc>) -> Result<ScoredList, FusionError> {
    Ok(ScoredList { hits, counters: counters(1) })
}

#[test]
fn a_plain_leg_searches_its_sources_and_joins_what_it_finds() {
    let segments = vec![sealed(1, &[10, 11])];
    let rows = active(&[20]);
    let terms = vec!["alpha".to_owned(), "beta".to_owned()];
    let begin = || {
        TermLeg::begin(&segments, &rows, &Vec::new(), None, 10, 3, "").expect("sources")
    };
    assert_eq!(begin().sources, both());
    assert_eq!(begin().k, 3);
    let hits = || vec![scored(0, 1, 3.0), scored(1, 0, 2.0)];
    let leg = begin()
        .exact_lexical_leg(&segments, &rows, &terms, found(hits()), None)
        .expect("leg");
    assert_eq!(leg.hits.len(), 2);
    assert_eq!(leg.hits[1].document, Some(version(20)));
    assert_eq!(leg.counters, counters(1));
    assert_eq!(leg.expansions, term_expansions(&terms));
    assert_eq!(
        leg.expansions[1],
        LexicalExpansion {
            term: "beta".to_owned(),
            boost_thousandths: 1_000,
            kind: LexicalMatchKind::Term,
        }
    );
    let unread = Some(UnreadDocument { hit: 0, error: damaged() });
    match begin().exact_lexical_leg(&segments, &rows, &terms, found(hits()), unread) {
        Err(FusionError::Leg { leg: FusionLeg::Lexical, kind: LegFailureKind::Segment, .. }) => {}
        other => panic!("{other:?}"),
    }
    let stopped = FusionError::Cancelled { partial: false };
    match begin().exact_lexical_leg(&segments, &rows, &terms, Err(stopped.clone()), None) {
        Err(error) => assert_eq!(error, stopped),
        other => panic!("{other:?}"),
    }
    let empty = TermLeg::begin(&Vec::new(), &active(&[]), &Vec::new(), None, 10, 0, "")
        .expect("no sources")
        .exact_lexical_leg(&Vec::new(), &active(&[]), &terms, Err(stopped), None)
        .expect("empty leg");
    assert!(empty.hits.is_empty());
    assert_eq!(empty.counters, SearchCounters::zero());
    assert_eq!(empty.expansions.len(), 2);
    let unopened =
        Some(UnopenedSource { ordinal: 0, fault: SourceFault::Index("full".to_owned()) });
    match TermLeg::begin(&segments, &rows, &Vec::new(), unopened, 10, 3, "") {
        Err(FusionError::Leg { kind: LegFailureKind::Lexical, detail, .. }) => {
            assert_eq!(detail, "full");
        }
        other => panic!("{other:?}"),
    }
}

#[test]
fn a_structured_leg_sums_its_expansions_and_keeps_the_best() {
    let segments = vec![sealed(1, &[10, 11])];
    let rows = active(&[20]);
    let begin = |expanded| {
        StructuredLeg::begin(&segments, &rows, &Vec::new(), None, expanded, 2, 3, "")
    };
    let terms = || {
        Ok(vec![
            expansion("red", LexicalMatchKind::Term),
            expansion("rad", LexicalMatchKind::Fuzzy),
        ])
    };
    let gathered = || {
        let mut leg = begin(terms()).expect("leg");
        leg.accept_expansion(found(vec![scored(0, 1, 3.0), scored(1, 0, 2.0)])).expect("red");
        leg.accept_expansion(found(vec![scored(0, 0, 1.0), scored(1, 0, 2.0)])).expect("rad");
        leg.gather();
        leg
    };
    let scores = vec![double(0.5), double(1.5), double(2.0)];
    let leg = gathered()
        .exact_structured_lexical_leg(
            &segments,
            &rows,
            &scores,
            None,
            None,
            String::new(),
            None,
        )
        .expect("leg");
    assert_eq!(leg.hits.iter().map(|hit| hit.doc).collect::<Vec<_>>(), vec![doc(1, 0), doc(0, 1)]);
    assert_eq!(leg.counters, counters(2));
    assert_eq!(leg.expansions.len(), 2);

    let phrase = vec![true, false, true];
    let leg = gathered()
        .exact_structured_lexical_leg(
            &segments,
            &rows,
            &scores,
            Some(&phrase),
            None,
            String::new(),
            None,
        )
        .expect("leg");
    assert_eq!(leg.hits.iter().map(|hit| hit.doc).collect::<Vec<_>>(), vec![doc(1, 0), doc(0, 0)]);

    let unread = Some(UnreadRow { hit: 1, fault: RowFault::Text(StoreError::Closing) });
    match gathered().exact_structured_lexical_leg(
        &segments,
        &rows,
        &scores,
        Some(&phrase),
        unread,
        "row is gone".to_owned(),
        None,
    ) {
        Err(FusionError::Leg { kind: LegFailureKind::Lexical, detail, .. }) => {
            assert_eq!(detail, "row is gone");
        }
        other => panic!("{other:?}"),
    }

    let idle = begin(Ok(Vec::new())).expect("no terms");
    assert!(idle.is_idle());
    let leg = idle
        .exact_structured_lexical_leg(
            &segments,
            &rows,
            &Vec::new(),
            None,
            None,
            String::new(),
            None,
        )
        .expect("idle leg");
    assert!(leg.hits.is_empty());
    match begin(Err("bad pattern".to_owned())) {
        Err(FusionError::Leg { kind: LegFailureKind::Lexical, detail, .. }) => {
            assert_eq!(detail, "bad pattern");
        }
        other => panic!("{other:?}"),
    }
}

#[test]
fn a_row_is_read_with_its_text_and_its_document() {
    let mut segments = vec![sealed(1, &[10, 11])];
    let rows = active(&[20]);
    {
        let read =
            |place, unread| structured_lexical_row(&segments, &rows, &both(), place, unread);
        let (text, document) = read(doc(0, 1), None).expect("row");
        assert_eq!((text.as_str(), document), ("text 11", version(11)));
        let (text, document) = read(doc(1, 0), None).expect("row");
        assert_eq!((text.as_str(), document), ("text 20", version(20)));
        assert_eq!(
            read(doc(0, 7), None),
            Err(StoreLexicalError::MissingStoredText { segment_id: SegmentId { value: 1 }, row: 7 })
        );
        assert_eq!(read(doc(1, 7), None), Err(absent()));
        assert_eq!(read(doc(9, 0), None), Err(absent()));
        let closing = StoreLexicalError::Query(QueryError::Store(StoreError::Closing));
        assert_eq!(
            read(doc(0, 7), Some(RowFault::Text(StoreError::Closing))),
            Err(closing.clone())
        );
        assert_eq!(read(doc(1, 0), Some(RowFault::Text(StoreError::Closing))), Err(closing));
        assert_eq!(
            read(doc(0, 0), Some(RowFault::Document(damaged()))),
            Err(StoreLexicalError::Query(QueryError::Store(StoreError::Segment(damaged()))))
        );
        assert!(read(doc(1, 0), Some(RowFault::Document(damaged()))).is_ok());
    }
    segments[0].documents = vec![];
    assert_eq!(
        structured_lexical_row(&segments, &rows, &both(), doc(0, 0), None),
        Err(StoreLexicalError::MissingDocumentIdentity { segment_id: SegmentId { value: 1 } })
    );
}

#[test]
fn a_leg_is_pruned_unless_its_rows_are_few() {
    assert_eq!(leg_width(10, 4), 4);
    assert_eq!(leg_width(10, 40), 10);
    assert_eq!(
        exact_hybrid_lexical_strategy(&vec![3, 4], 10, 70),
        LexicalStrategy::AllowListDriven
    );
    assert_eq!(exact_hybrid_lexical_strategy(&vec![3, 5], 10, 70), LexicalStrategy::Pruned);
    assert_eq!(
        exact_hybrid_lexical_strategy(&vec![u64::MAX], 10, u64::MAX),
        LexicalStrategy::AllowListDriven
    );
}

#[test]
fn only_a_pruned_leg_polls_around_its_search() {
    let stop = ScanError::Cancelled { partial: false };
    let run = |strategy, before, searched, after| {
        exact_hybrid_lexical_search::<u8>(strategy, before, searched, after, "")
    };
    let cancelled = Err(FusionError::Cancelled { partial: false });
    assert_eq!(run(LexicalStrategy::Pruned, Ok(()), Ok(4), Ok(())), Ok(4));
    assert_eq!(run(LexicalStrategy::Pruned, Err(stop), Ok(4), Ok(())), cancelled);
    assert_eq!(run(LexicalStrategy::Pruned, Ok(()), Ok(4), Err(stop)), cancelled);
    assert_eq!(run(LexicalStrategy::AllowListDriven, Err(stop), Ok(4), Err(stop)), Ok(4));
    assert_eq!(
        run(
            LexicalStrategy::AllowListDriven,
            Ok(()),
            Err(ControlledSearchError::Control(stop)),
            Ok(())
        ),
        cancelled
    );
}

#[test]
fn contributions_are_gathered_by_document_in_expansion_order() {
    let gathered = aggregate_hits(&vec![
        vec![scored(1, 0, 2.0), scored(0, 3, 1.0)],
        vec![],
        vec![scored(1, 0, 0.5)],
    ]);
    let shape: Vec<(GlobalDocId, Vec<(usize, Double)>)> = gathered
        .iter()
        .map(|entry| {
            (
                entry.doc,
                entry.contributions.iter().map(|given| (given.expansion, given.score)).collect(),
            )
        })
        .collect();
    assert_eq!(
        shape,
        vec![
            (doc(0, 3), vec![(0, double(1.0))]),
            (doc(1, 0), vec![(0, double(2.0)), (2, double(0.5))]),
        ]
    );
    let scores = vec![double(1.0), double(2.5)];
    let ranked = rank_structured(&gathered, &scores, None, 5);
    assert_eq!(
        ranked,
        vec![
            RankedDoc { doc: doc(1, 0), score: double(2.5), place: 1 },
            RankedDoc { doc: doc(0, 3), score: double(1.0), place: 0 },
        ]
    );
    assert_eq!(rank_structured(&gathered, &scores, None, 1).len(), 1);
    let phrase = vec![true, false];
    assert_eq!(
        rank_structured(&gathered, &scores, Some(&phrase), 5),
        vec![RankedDoc { doc: doc(0, 3), score: double(1.0), place: 0 }]
    );
    let tied = rank_structured(&gathered, &vec![double(0.0), double(-0.0)], None, 5);
    assert_eq!(tied[0].doc, doc(0, 3));
    assert!(!numeric_below(double(-0.0), double(0.0)));
    assert!(numeric_below(double(-1.0), double(-0.5)));
}

#[test]
fn every_hit_of_a_lexical_query_needs_its_document() {
    let segments = vec![sealed(1, &[10])];
    let rows = active(&[20]);
    let hits = vec![scored(1, 0, 2.0), scored(0, 0, 1.0)];
    assert_eq!(
        find_documents(&segments, &rows, &both(), &hits, None),
        Ok(vec![
            LexicalResult { document: version(20), score: double(2.0) },
            LexicalResult { document: version(10), score: double(1.0) },
        ])
    );
    assert_eq!(
        find_documents(
            &segments,
            &rows,
            &both(),
            &hits,
            Some(UnreadDocument { hit: 1, error: damaged() })
        ),
        Err(StoreLexicalError::Query(QueryError::Store(StoreError::Segment(damaged()))))
    );
    assert_eq!(
        find_documents(&segments, &rows, &both(), &vec![scored(1, 4, 1.0)], None),
        Err(absent())
    );
    assert_eq!(
        find_documents(&segments, &rows, &both(), &vec![scored(0, 4, 1.0)], None),
        Err(StoreLexicalError::MissingDocumentIdentity { segment_id: SegmentId { value: 1 } })
    );
}

fn counters(docs: u64) -> SearchCounters {
    SearchCounters { docs_evaluated: docs, postings_decoded: 0, blocks_decoded: 0, blocks_skipped: 0 }
}

#[test]
fn a_lexical_query_returns_documents_and_leaves_no_query_behind() {
    let mut flags = StopFlags::new();
    let mut store = open(&mut flags);
    let asked = control(&mut flags);
    let rows = active(&[20]);
    let found = || ScoredList { hits: vec![scored(0, 0, 2.0)], counters: counters(7) };
    let outcome = store
        .search_lexical(
            &mut flags,
            asked,
            &vec![],
            &rows,
            5,
            1,
            &vec![],
            None,
            Ok(found()),
            2,
            None,
            33,
        )
        .expect("outcome");
    assert_eq!(
        outcome.candidates,
        vec![LexicalResult { document: version(20), score: double(2.0) }]
    );
    assert_eq!(outcome.generation, 3);
    assert_eq!(outcome.diagnostics.indexed_through_seq, 9);
    assert_eq!(outcome.diagnostics.requested_k, 5);
    assert_eq!(outcome.diagnostics.returned, 1);
    assert_eq!(outcome.diagnostics.counters, counters(7));
    assert_eq!(outcome.diagnostics.elapsed, 33);
    assert_eq!(store.active_queries, 0);
    let refused = store.search_lexical(
        &mut flags,
        asked,
        &vec![],
        &rows,
        5,
        1,
        &vec![],
        None,
        Err(ControlledSearchError::Index("bad term".to_owned())),
        2,
        None,
        33,
    );
    assert_eq!(refused.map(|_| ()), Err(StoreLexicalError::Filter("bad term".to_owned())));
    assert_eq!(store.active_queries, 0);
    let clock = ManualMonotonicClock::starting_at(0);
    let deadline = Deadline::after_with_test_clock(10, &clock, &mut flags).expect("deadline");
    let late = store.search_lexical(
        &mut flags,
        QueryControl::Deadline(deadline),
        &vec![],
        &rows,
        5,
        9,
        &vec![],
        None,
        Ok(found()),
        10,
        None,
        33,
    );
    assert_eq!(
        late.map(|_| ()),
        Err(StoreLexicalError::Query(QueryError::Scan(ScanError::Timeout { partial: false })))
    );
    store.begin_close();
    let closed = store.search_lexical(
        &mut flags,
        asked,
        &vec![],
        &rows,
        5,
        1,
        &vec![],
        None,
        Ok(found()),
        2,
        None,
        33,
    );
    assert_eq!(
        closed.map(|_| ()),
        Err(StoreLexicalError::Query(QueryError::Store(StoreError::Closing)))
    );
}

fn expansion(term: &str, kind: LexicalMatchKind) -> LexicalExpansion {
    LexicalExpansion { term: term.to_owned(), boost_thousandths: 500, kind }
}

fn snippet(text: &str) -> Snippet {
    Snippet { text: Some(text.to_owned()), start: 0, end: text.len(), highlights: vec![(0, 3)] }
}

#[test]
fn a_structured_query_explains_every_hit_it_returns() {
    let mut flags = StopFlags::new();
    let mut store = open(&mut flags);
    let asked = control(&mut flags);
    let rows = active(&[20, 21]);
    let segments = Vec::new();
    let expansions =
        vec![expansion("red", LexicalMatchKind::Term), expansion("rad", LexicalMatchKind::Fuzzy)];
    let mut search = store
        .search_lexical_structured(
            &mut flags,
            asked,
            &segments,
            &rows,
            &vec![],
            None,
            1,
            Ok(expansions.clone()),
        )
        .expect("search");
    assert_eq!(store.active_queries, 1);
    search
        .accept_expansion(
            &mut flags,
            2,
            Ok(ScoredList {
                hits: vec![scored(0, 0, 1.0), scored(0, 1, 4.0)],
                counters: counters(2),
            }),
        )
        .expect("first");
    search
        .accept_expansion(
            &mut flags,
            3,
            Ok(ScoredList { hits: vec![scored(0, 1, 2.0)], counters: counters(1) }),
        )
        .expect("second");
    search.gather();
    search
        .rank(&segments, &rows, &vec![double(1.0), double(6.0)], None, None, 2)
        .expect("ranked");
    assert_eq!(
        search.explain_next(&mut flags, &segments, &rows, 4, None, Ok(None)),
        Err(StoreLexicalError::MissingSnippetMatch { segment: 0, row: 1 })
    );
    assert_eq!(
        search.explain_next(
            &mut flags,
            &segments,
            &rows,
            4,
            Some(RowFault::Text(StoreError::Closing)),
            Ok(Some(snippet("red")))
        ),
        Err(StoreLexicalError::Query(QueryError::Store(StoreError::Closing)))
    );
    let outside = Snippet { text: None, start: 0, end: 3, highlights: Vec::new() };
    assert_eq!(
        search.explain_next(&mut flags, &segments, &rows, 4, None, Ok(Some(outside))),
        Err(absent())
    );
    for text in ["red rad", "red"] {
        search
            .explain_next(&mut flags, &segments, &rows, 4, None, Ok(Some(snippet(text))))
            .expect("explained");
    }
    let outcome = store
        .finish_structured(search, &mut flags, &rows, 2, 5, 44)
        .expect("outcome");
    assert_eq!(store.active_queries, 0);
    assert_eq!(outcome.candidates.len(), 2);
    assert_eq!(outcome.candidates[0].document, version(21));
    assert_eq!(outcome.candidates[0].score, double(6.0));
    assert_eq!(outcome.candidates[0].provenance, expansions);
    assert_eq!(outcome.candidates[0].snippet, snippet("red rad"));
    assert_eq!(outcome.candidates[1].provenance, expansions[..1].to_vec());
    assert_eq!(outcome.expansions, expansions);
    assert_eq!(outcome.diagnostics.counters, counters(3));
    assert_eq!(outcome.diagnostics.returned, 2);
}

#[test]
fn a_structured_query_stops_where_it_is_told() {
    let mut flags = StopFlags::new();
    let mut store = open(&mut flags);
    let asked = control(&mut flags);
    let rows = active(&[20]);
    let segments = Vec::new();
    let refused = store.search_lexical_structured(
        &mut flags,
        asked,
        &segments,
        &rows,
        &vec![],
        None,
        1,
        Err(StoreLexicalError::Filter("too many".to_owned())),
    );
    assert_eq!(refused.map(|_| ()), Err(StoreLexicalError::Filter("too many".to_owned())));
    assert_eq!(store.active_queries, 0);
    let mut search = store
        .search_lexical_structured(
            &mut flags,
            asked,
            &segments,
            &rows,
            &vec![],
            None,
            1,
            Ok(vec![expansion("red", LexicalMatchKind::Term)]),
        )
        .expect("search");
    let list = |row| ScoredList { hits: vec![scored(0, row, 1.0)], counters: counters(1) };
    search.accept_expansion(&mut flags, 2, Ok(list(0))).expect("scored");
    search.gather();
    let phrase = vec![true];
    assert_eq!(
        search.rank(
            &segments,
            &rows,
            &vec![double(1.0)],
            Some(&phrase),
            Some(UnreadRow { hit: 0, fault: RowFault::Text(StoreError::Closing) }),
            1
        ),
        Err(StoreLexicalError::Query(QueryError::Store(StoreError::Closing)))
    );
    search.rank(&segments, &rows, &vec![double(1.0)], Some(&phrase), None, 1).expect("ranked");
    if let QueryControl::Cancel(token) = asked {
        token.cancel(&mut flags);
    }
    let stopped =
        StoreLexicalError::Query(QueryError::Scan(ScanError::Cancelled { partial: false }));
    assert_eq!(
        search.explain_next(&mut flags, &segments, &rows, 4, None, Ok(Some(snippet("red")))),
        Err(stopped)
    );
}

fn candidate(source: RowSource, row: u32, doc: u128) -> SearchCandidate {
    SearchCandidate {
        row_id: GlobalRowId::new(source, row),
        document: Some(version(doc)),
        score: Score { bits: (-2.5_f32).to_bits() },
        exact_score: true,
    }
}

#[test]
fn candidates_without_a_structured_hit_score_zero() {
    let mut flags = StopFlags::new();
    let query = cancellation(&mut flags);
    let clock = ManualMonotonicClock::new();
    let hit = |row, doc_id, bm25| LexicalHit {
        doc: doc(0, row),
        document: Some(version(doc_id)),
        bm25: double(bm25),
    };
    let sources = vec![StructuredLexicalSource::Active];
    let missing = vec![
        candidate(RowSource::Active, 0, 10),
        candidate(RowSource::Active, 1, 11),
        candidate(RowSource::Active, 0, 12),
    ];
    let hits = vec![hit(0, 10, 1.0), hit(0, 10, 3.0)];
    assert_eq!(
        structured_cross_scores(&vec![], &sources, &hits, &missing, &mut board_poll(query, &mut flags, &clock)),
        Ok(vec![double(3.0), double(0.0), double(0.0)])
    );
    flags.settle(query.lease_flag, StopState::Cancelled);
    assert_eq!(
        structured_cross_scores(&vec![], &sources, &hits, &vec![], &mut board_poll(query, &mut flags, &clock)),
        Err(FusionError::ReadCancelled { partial: false })
    );
}

#[test]
fn candidates_of_a_term_query_are_routed_to_their_sources() {
    let mut flags = StopFlags::new();
    let query = cancellation(&mut flags);
    let clock = ManualMonotonicClock::new();
    let segments = vec![sealed(1, &[10, 11]), sealed(2, &[12])];
    let rows = active(&[20]);
    let first = RowSource::Sealed(SegmentId { value: 1 });
    let unindexed = RowSource::Sealed(SegmentId { value: 2 });
    let missing = vec![
        candidate(first, 1, 11),
        candidate(RowSource::Active, 0, 20),
        candidate(unindexed, 0, 12),
        candidate(first, 0, 10),
    ];
    let mut route = |missing: &Vec<SearchCandidate>, unread| {
        route_missing(&segments, &rows, &both(), missing, unread, &mut board_poll(query, &mut flags, &clock))
    };
    let batches = route(&missing, None).expect("batches");
    assert_eq!(
        batches,
        vec![
            vec![RoutedRow { row: 1, position: 0 }, RoutedRow { row: 0, position: 3 }],
            vec![RoutedRow { row: 0, position: 1 }],
        ]
    );
    match route(&vec![candidate(first, 0, 99)], None) {
        Err(FusionError::Leg { leg: FusionLeg::Lexical, kind, detail }) => {
            assert_eq!(kind, LegFailureKind::Invariant);
            assert_eq!(detail, "hybrid candidate does not match the pinned live row and revision");
        }
        other => panic!("{other:?}"),
    }
    match route(&missing, Some(UnreadDocument { hit: 3, error: damaged() })) {
        Err(FusionError::Leg { leg: FusionLeg::Lexical, kind: LegFailureKind::Segment, .. }) => {}
        other => panic!("{other:?}"),
    }
    let found = |scores: &[Option<f64>], docs| {
        Ok(BatchScores {
            scores: scores.iter().map(|score| score.map(double)).collect(),
            counters: counters(docs),
        })
    };
    let sent = |places: &[usize]| -> Vec<PhysicalIdentity> {
        places
            .iter()
            .map(|at| PhysicalIdentity {
                row: missing[*at].row_id,
                document: missing[*at].document,
            })
            .collect()
    };
    let mut observer = HybridScoreObserver::new();
    begin_hybrid_score_test_observations(&mut observer);
    let (scores, work) = cross_score_lexical(
        &missing,
        &batches,
        vec![found(&[Some(1.5), None], 2), found(&[Some(2.5)], 1)],
        "",
        &mut board_poll(query, &mut flags, &clock),
        &mut observer,
    )
    .expect("scores");
    assert_eq!(scores, vec![double(1.5), double(2.5), double(0.0), double(0.0)]);
    assert_eq!(work, counters(3));
    let seen = take_hybrid_score_test_observations(&mut observer);
    assert_eq!(seen.lexical_rows, sent(&[0, 3, 1]));
    begin_hybrid_score_test_observations(&mut observer);
    let failed = cross_score_lexical(
        &missing,
        &batches,
        vec![Err(ControlledSearchError::Index("bad".to_owned())), found(&[Some(1.5)], 2)],
        "",
        &mut board_poll(query, &mut flags, &clock),
        &mut observer,
    );
    match failed {
        Err(FusionError::Leg { leg: FusionLeg::Lexical, kind: LegFailureKind::Lexical, detail }) => {
            assert_eq!(detail, "bad")
        }
        other => panic!("{other:?}"),
    }
    let seen = take_hybrid_score_test_observations(&mut observer);
    assert_eq!(seen.lexical_rows, sent(&[0, 3]));
    flags.settle(query.lease_flag, StopState::Cancelled);
    let empty = vec![vec![], vec![]];
    let nothing = cross_score_lexical(
        &vec![candidate(unindexed, 0, 12)],
        &empty,
        vec![found(&[], 9), found(&[], 9)],
        "",
        &mut board_poll(query, &mut flags, &clock),
        &mut observer,
    );
    assert_eq!(nothing, Ok((vec![double(0.0)], SearchCounters::zero())));
    let stopped = cross_score_lexical(
        &missing,
        &batches,
        vec![found(&[], 0), found(&[], 0)],
        "",
        &mut board_poll(query, &mut flags, &clock),
        &mut observer,
    );
    assert_eq!(stopped, Err(FusionError::ReadCancelled { partial: false }));
}

#[test]
fn a_score_without_a_place_is_refused() {
    let mut scores = vec![double(0.0)];
    let batch = vec![RoutedRow { row: 0, position: 1 }];
    assert!(scatter_scores(&mut scores, &batch, &vec![]).is_ok());
    match scatter_scores(&mut scores, &batch, &vec![Some(double(1.0))]) {
        Err(FusionError::Leg { kind: LegFailureKind::Invariant, detail, .. }) => {
            assert_eq!(detail, "hybrid candidate routing position is absent")
        }
        other => panic!("{other:?}"),
    }
}

fn vector_complaint<T: std::fmt::Debug>(result: Result<T, FusionError>) -> String {
    match result {
        Err(FusionError::Leg { leg: FusionLeg::Vector, kind: LegFailureKind::Invariant, detail }) => {
            detail
        }
        other => panic!("{other:?}"),
    }
}

#[test]
fn a_distance_is_read_from_the_row_that_the_hit_names() {
    let sources = both();
    assert_eq!(cross_fill_source(&sources, 1, doc(0, 4)), Ok(Some(0)));
    assert_eq!(cross_fill_source(&sources, 1, doc(1, 4)), Ok(None));
    assert_eq!(
        vector_complaint(cross_fill_source(&sources, 1, doc(2, 4))),
        "hybrid cross-fill named an unknown lexical segment"
    );
    assert_eq!(
        vector_complaint(cross_fill_source(&sources, 0, doc(0, 4))),
        "hybrid cross-fill named an absent sealed segment"
    );
    let segments = vec![sealed(1, &[10, 11, 12])];
    let rows = active(&[20]);
    let mut observer = HybridScoreObserver::new();
    let mut place = |observer: &mut HybridScoreObserver, segment, doc, values, unread| {
        cross_fill_row(&segments, &rows, &sources, segment, doc, 3, values, "", unread, observer)
    };
    let located = Ok(CrossFillRow { segment: Some(0), start: 6, end: 9 });
    assert_eq!(place(&mut observer, Some(0), doc(0, 2), Ok(9), Some(damaged())), located);
    begin_hybrid_score_test_observations(&mut observer);
    assert_eq!(place(&mut observer, Some(0), doc(0, 2), Ok(9), None), located);
    assert_eq!(
        vector_complaint(place(&mut observer, None, doc(1, 3), Ok(9), None)),
        "hybrid cross-fill row is outside its segment"
    );
    let refused = Err(QueryError::Cancelled { partial: false });
    assert_eq!(
        place(&mut observer, None, doc(1, 0), refused, None),
        Err(FusionError::Cancelled { partial: false })
    );
    assert!(place(&mut observer, None, doc(1, 0), Ok(3), None).is_ok());
    assert!(matches!(
        place(&mut observer, Some(0), doc(0, 1), Ok(9), Some(damaged())),
        Err(FusionError::Leg {
            leg: FusionLeg::Lexical,
            kind: LegFailureKind::Segment,
            ..
        })
    ));
    let read = |source, row, doc| PhysicalIdentity {
        row: GlobalRowId::new(source, row),
        document: Some(version(doc)),
    };
    assert_eq!(
        take_hybrid_score_test_observations(&mut observer).vector_rows,
        vec![
            read(RowSource::Sealed(SegmentId { value: 1 }), 2, 12),
            read(RowSource::Active, 0, 20),
        ]
    );
    let distance = Score { bits: 2.5_f32.to_bits() };
    assert_eq!(exact_squared_l2(distance), Ok(distance));
    assert_eq!(
        vector_complaint(exact_squared_l2(Score { bits: f32::INFINITY.to_bits() })),
        "hybrid cross-fill produced a non-finite distance"
    );
    assert_eq!(candidate_squared_l2(&candidate(RowSource::Active, 0, 1)), distance);
}

#[test]
fn a_stop_is_checked_for_every_hit_of_the_lexical_window() {
    let mut flags = StopFlags::new();
    let mut clock = ManualMonotonicClock::starting_at(0);
    let deadline = Deadline::after_with_test_clock(5, &clock, &mut flags).expect("deadline");
    let query =
        QueryCancellation::new(QueryControl::Deadline(deadline), flags.add_flag());
    let plan = RoundPlan {
        vector_ids: vec![],
        lexical_ids: vec![],
        vector_needed: vec![0, 2],
        lexical_needed: vec![],
    };
    let mut needs = |place, clock: &ManualMonotonicClock| {
        begin_cross_fill(&plan, place, &mut board_poll(query, &mut flags, clock))
    };
    assert_eq!(needs(0, &clock), Ok(true));
    assert_eq!(needs(1, &clock), Ok(false));
    assert_eq!(needs(2, &clock), Ok(true));
    clock.advance(5);
    assert_eq!(needs(1, &clock), Err(FusionError::Timeout { partial: false }));
}

fn deadline_at(flags: &mut StopFlags, at: u128) -> QueryControl {
    let clock = ManualMonotonicClock::starting_at(0);
    QueryControl::Deadline(Deadline::after_with_test_clock(at, &clock, flags).expect("deadline"))
}

#[test]
fn astra_18_public_lexical_deadline_reaches_scoring() {
    let mut flags = StopFlags::new();
    let mut store = open(&mut flags);
    let asked = deadline_at(&mut flags, 10);
    let stopped = ControlledSearchError::Control(ScanError::Timeout { partial: false });
    let result = store.search_lexical(
        &mut flags,
        asked,
        &vec![],
        &active(&[20]),
        10,
        1,
        &vec![],
        None,
        Err(stopped),
        12,
        None,
        33,
    );
    assert_eq!(
        result.map(|_| ()),
        Err(StoreLexicalError::Query(QueryError::Scan(ScanError::Timeout { partial: false })))
    );
    assert_eq!(store.active_queries, 0);
    let asked = control(&mut flags);
    let clean = store.search_lexical(
        &mut flags,
        asked,
        &vec![],
        &active(&[20]),
        10,
        1,
        &vec![],
        None,
        Ok(ScoredList { hits: vec![scored(0, 0, 2.0)], counters: counters(7) }),
        2,
        None,
        33,
    );
    assert_eq!(clean.expect("fresh complete query").candidates.len(), 1);
}

#[test]
fn a_lexical_query_leaves_the_board_as_its_checks_do() {
    let mut flags = StopFlags::new();
    let mut store = open(&mut flags);
    let rows = active(&[20]);
    let found = || ScoredList { hits: vec![scored(0, 0, 2.0)], counters: counters(7) };
    let mut run = |store: &mut Store, before: u128, searched, after: u128| {
        let asked = deadline_at(&mut flags, 10);
        let result = store
            .search_lexical(
                &mut flags,
                asked,
                &vec![],
                &rows,
                5,
                before,
                &vec![],
                None,
                searched,
                after,
                None,
                33,
            )
            .map(|_| ());
        (result, flags.state(asked.state()))
    };
    let late = StoreLexicalError::Query(QueryError::Scan(ScanError::Timeout { partial: false }));
    let refused = || Err(ControlledSearchError::Index("bad term".to_owned()));
    assert_eq!(run(&mut store, 1, Ok(found()), 2), (Ok(()), StopState::Active));
    assert_eq!(
        run(&mut store, 10, Ok(found()), 2),
        (Err(late.clone()), StopState::TimedOut)
    );
    assert_eq!(
        run(&mut store, 1, Ok(found()), 10),
        (Err(late), StopState::TimedOut)
    );
    assert_eq!(
        run(&mut store, 1, refused(), 10),
        (Err(StoreLexicalError::Filter("bad term".to_owned())), StopState::Active)
    );
    store.begin_close();
    assert_eq!(run(&mut store, 10, Ok(found()), 10).1, StopState::Active);
}

#[test]
fn an_admitted_query_reports_the_snapshot_that_it_pinned() {
    let mut flags = StopFlags::new();
    let mut store = open(&mut flags);
    let asked = control(&mut flags);
    let rows = active(&[20]);
    let mut pinned = PublishedSnapshot::empty(4, plain_schema(), &mut flags);
    pinned.absorbed_through = 12;
    store.publish_snapshot(pinned).expect("pinned");
    let plain = store
        .begin_lexical(&mut flags, asked, &vec![], &rows, &vec![], None, 1)
        .expect("plain query");
    let structured = store
        .search_lexical_structured(
            &mut flags,
            asked,
            &vec![],
            &rows,
            &vec![],
            None,
            1,
            Ok(vec![]),
        )
        .expect("structured query");
    assert_eq!((plain.absorbed_through, structured.absorbed_through), (12, 12));
    let mut newer = PublishedSnapshot::empty(5, plain_schema(), &mut flags);
    newer.absorbed_through = 40;
    store.publish_snapshot(newer).expect("newer");
    store.begin_close();
    store.take_snapshot();
    assert_eq!(store.active_queries, 2);
    let found = ScoredList { hits: vec![scored(0, 0, 2.0)], counters: counters(7) };
    let outcome = store
        .finish_lexical(plain, &mut flags, &vec![], &rows, 5, Ok(found), 2, None, 33)
        .expect("plain outcome");
    assert_eq!(outcome.generation, 4);
    assert_eq!(outcome.diagnostics.indexed_through_seq, 12);
    assert_eq!(outcome.diagnostics.returned, 1);
    let outcome = store
        .finish_structured(structured, &mut flags, &rows, 5, 2, 33)
        .expect("structured outcome");
    assert_eq!(outcome.generation, 4);
    assert_eq!(outcome.diagnostics.indexed_through_seq, 12);
    assert_eq!(store.active_queries, 0);
}

/// Passes checks until the one that finds a stop, and counts them.
struct Scripted {
    made: usize,
    stop_at: usize,
}

impl StopSource for Scripted {
    fn look(&mut self, _query: &QueryCancellation) -> Result<(), ScanError> {
        self.made += 1;
        if self.made >= self.stop_at {
            Err(ScanError::Cancelled { partial: false })
        } else {
            Ok(())
        }
    }
}

#[test]
fn candidates_are_scored_across_with_a_check_before_each() {
    let sources = vec![StructuredLexicalSource::Active];
    let rows = active(&[20, 21, 22]);
    let missing: Vec<SearchCandidate> =
        (0..3).map(|at| candidate(RowSource::Active, at, 20 + u128::from(at))).collect();
    let stopped = FusionError::Cancelled { partial: false };
    let query = cancellation(&mut StopFlags::new());
    for (stop_at, made) in [(1, 1), (3, 3), (4, 4), (5, 4)] {
        let mut poll = StopPoll::new(query, Scripted { made: 0, stop_at });
        let routed = route_missing(&vec![], &rows, &sources, &missing, None, &mut poll);
        assert_eq!(poll.source.made, made);
        assert_eq!(routed.is_ok(), stop_at > 4);
        let mut poll = StopPoll::new(query, Scripted { made: 0, stop_at });
        let scores = structured_cross_scores(&vec![], &sources, &vec![], &missing, &mut poll);
        assert_eq!(poll.source.made, made);
        if stop_at > 4 {
            assert_eq!(scores, Ok(vec![double(0.0); 3]));
        } else {
            assert_eq!(scores, Err(stopped.clone()));
        }
    }
}
