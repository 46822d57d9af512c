use std::convert::Infallible;
use zeppelin_embed::accounting::Accounting;
use zeppelin_embed::candidates::{SearchCandidate, StructuredLexicalSource};
use zeppelin_embed::clock::ManualMonotonicClock;
use zeppelin_embed::control::{
    CancelToken, Deadline, QueryCancellation, QueryControl, StopFlags,
};
use zeppelin_embed::corpus::{ActiveFacts, SegmentFacts};
use zeppelin_embed::error::{
    Geometry, IoError, IoErrorKind, QueryError, ScanError, Schema, SegmentError, StoreError,
};
use zeppelin_embed::fusion::FusionError;
use zeppelin_embed::ids::{
    DocId, DocumentVersion, GlobalDocId, GlobalRowId, Revision, RowSource, SegmentId,
};
use zeppelin_embed::lexical::StoreLexicalError;
use zeppelin_embed::materialize::{
    hybrid_address, lexical_address, lexical_row_id, vector_address, HybridPreparationError,
    MaterializationCounters, MaterializationError, MaterializationTestCounters,
    MaterializationWords, MaterializedRow, QueryMaterializer, ResultAddress, StoredTextFault,
};
use zeppelin_embed::metadata::{
    ActiveMetadata, ColumnValue, PredicateValue, SealedColumn, SealedColumns, SealedMetadata,
    SealedSource, SourceFacts, WrittenValue,
};
use zeppelin_embed::open::{OpenPlan, OpenStage, RecoveredActive};
use zeppelin_embed::options::OpenOptions;
use zeppelin_embed::round::AddressEntry;
use zeppelin_embed::score::Score;
use zeppelin_embed::poll::{board_poll, StopPoll, StopSource};
use zeppelin_embed::snapshot::{PublishedSnapshot, SnapshotLease};
use zeppelin_embed::store::{ActiveHandle, Store};
use zeppelin_embed::with_text::DeferredQuery;

fn version(doc: u128, revision: u64) -> DocumentVersion {
    DocumentVersion::new(DocId::new(doc), Revision::new(revision))
}

fn segment(id: u128, rows: &[(DocumentVersion, Option<&str>)]) -> SegmentFacts {
    SegmentFacts {
        id: SegmentId { value: id },
        row_count: rows.len() as u32,
        dims: 4,
        scheme: 4,
        has_graph: false,
        has_postings: true,
        documents: rows.iter().map(|(document, _)| Some(*document)).collect(),
        alive: vec![true; rows.len()],
        texts: Some(rows.iter().map(|(_, text)| text.map(str::to_owned)).collect()),
    }
}

fn active(rows: &[(DocumentVersion, Option<&str>)]) -> ActiveFacts {
    ActiveFacts {
        row_count: rows.len(),
        has_text: true,
        indexed_through_seq: 9,
        documents: rows.iter().map(|(document, _)| Some(*document)).collect(),
        alive: vec![true; rows.len()],
        texts: rows.iter().map(|(_, text)| text.map(str::to_owned)).collect(),
    }
}

fn sealed_row(id: u128, row: u32) -> GlobalRowId {
    GlobalRowId::new(RowSource::Sealed(SegmentId { value: id }), row)
}

fn plain_schema() -> Schema {
    Schema { columns: vec![], label: "timestamp only".to_owned() }
}

fn open(flags: &mut StopFlags) -> Store {
    let options = OpenOptions::new();
    let accounting = Accounting::new(options.max_resident_bytes, options.max_temp_bytes);
    let mut plan = OpenPlan::begin("/stores/a".to_owned(), options, plain_schema(), Ok(()))
        .expect("begin");
    plan.directory_ensured(Ok(true)).expect("directory");
    plan.lock_acquired(Ok(())).expect("lock");
    plan.manifest_probed(Err(IoError {
        kind: IoErrorKind::NotFound,
        message: "no manifest".to_owned(),
    }))
    .expect("probe");
    plan.snapshot_loaded(Ok(PublishedSnapshot::empty(3, plain_schema(), flags)))
        .expect("snapshot");
    plan.tokenizer_built(Ok(1)).expect("tokenizer");
    plan.active_recovered(Ok(RecoveredActive {
        active: ActiveHandle { generation: 3, rows: 0 },
        wal: false,
    }))
    .expect("active");
    if plan.stage == OpenStage::CommitManifest {
        plan.manifest_committed(Ok(())).expect("manifest");
    }
    if plan.stage == OpenStage::CreateWal {
        plan.wal_ready(Ok(())).expect("log");
    }
    if plan.stage == OpenStage::StartBackground {
        plan.background_started(Ok(())).expect("background");
    }
    plan.publish(1, accounting, None, None)
}

fn materializer(flags: &mut StopFlags) -> QueryMaterializer {
    let token = CancelToken::new(flags);
    let lease = flags.add_flag();
    QueryMaterializer::new(QueryCancellation::new(QueryControl::Cancel(token), lease))
}

#[test]
fn every_rank_leads_to_one_row() {
    let candidates = vec![SearchCandidate {
        row_id: sealed_row(1, 2),
        document: Some(version(7, 1)),
        score: Score { bits: 0 },
        exact_score: true,
    }];
    assert_eq!(
        vector_address(&candidates, 0),
        Ok(ResultAddress { row_id: sealed_row(1, 2), document: Some(version(7, 1)) })
    );
    assert_eq!(
        vector_address(&candidates, 1),
        Err(MaterializationError::RankOutOfRange { rank: 1, returned: 1 })
    );
    let segments = vec![segment(1, &[])];
    let sources = vec![
        StructuredLexicalSource::Sealed(0),
        StructuredLexicalSource::Active,
        StructuredLexicalSource::Sealed(4),
    ];
    let place = |segment| GlobalDocId { segment, row: 5 };
    assert_eq!(lexical_row_id(&segments, &sources, place(0)), Ok(sealed_row(1, 5)));
    assert_eq!(
        lexical_row_id(&segments, &sources, place(1)),
        Ok(GlobalRowId::new(RowSource::Active, 5))
    );
    for missing in [2, 3] {
        assert_eq!(
            lexical_row_id(&segments, &sources, place(missing)),
            Err(MaterializationError::InvalidLexicalSource { source: missing })
        );
    }
    let documents = vec![version(7, 1), version(8, 1)];
    let hits = vec![place(0)];
    assert_eq!(
        lexical_address(&segments, &sources, &documents, &hits, 0),
        Ok(ResultAddress { row_id: sealed_row(1, 5), document: Some(version(7, 1)) })
    );
    assert_eq!(
        lexical_address(&segments, &sources, &documents, &hits, 2),
        Err(MaterializationError::RankOutOfRange { rank: 2, returned: 2 })
    );
    assert_eq!(
        lexical_address(&segments, &sources, &documents, &hits, 1),
        Err(MaterializationError::RankOutOfRange { rank: 1, returned: 1 })
    );
    let entry = |key, row| AddressEntry {
        key: DocId::new(key),
        row_id: sealed_row(1, row),
        document: Some(version(key, 1)),
    };
    let addresses = Some(vec![entry(3, 0), entry(5, 1), entry(9, 2)]);
    let fused = vec![DocId::new(9), DocId::new(4)];
    assert_eq!(
        hybrid_address(&fused, &addresses, 0),
        Ok(ResultAddress { row_id: sealed_row(1, 2), document: Some(version(9, 1)) })
    );
    assert_eq!(
        hybrid_address(&fused, &addresses, 1),
        Err(MaterializationError::MissingFusedIdentity { document: DocId::new(4) })
    );
    assert_eq!(
        hybrid_address(&fused, &None, 0),
        Err(MaterializationError::MissingFusedIdentity { document: DocId::new(9) })
    );
    assert_eq!(
        hybrid_address(&fused, &addresses, 2),
        Err(MaterializationError::RankOutOfRange { rank: 2, returned: 2 })
    );
}

#[test]
fn materialized_text_is_that_of_the_ranked_version() {
    let mut flags = StopFlags::new();
    let clock = ManualMonotonicClock::new();
    let mut materializer = materializer(&mut flags);
    let segments = vec![segment(1, &[(version(7, 1), Some("seven")), (version(8, 1), None)])];
    let rows = active(&[(version(9, 1), Some("n\u{00fc}n"))]);
    let address = |row_id, document| Ok(ResultAddress { row_id, document });
    let here = GlobalRowId::new(RowSource::Active, 0);
    let cancellation = materializer.cancellation;
    let mut text = |address, read, denied| {
        let mut poll = board_poll(cancellation, &mut flags, &clock);
        materializer.text(&segments, &rows, address, read, denied, &mut poll)
    };
    assert_eq!(
        text(address(sealed_row(1, 0), Some(version(7, 1))), Ok(()), false),
        Ok(MaterializedRow {
            document: version(7, 1),
            row_id: sealed_row(1, 0),
            text: "seven".to_owned(),
        })
    );
    assert_eq!(
        text(address(here, Some(version(9, 1))), Ok(()), false).map(|row| row.text),
        Ok("n\u{00fc}n".to_owned())
    );
    assert_eq!(
        text(address(sealed_row(1, 1), Some(version(8, 1))), Ok(()), false),
        Err(MaterializationError::MissingText {
            row_id: sealed_row(1, 1),
            document: version(8, 1),
        })
    );
    assert_eq!(
        text(address(sealed_row(1, 0), Some(version(7, 2))), Ok(()), false),
        Err(MaterializationError::IdentityMismatch {
            row_id: sealed_row(1, 0),
            expected: version(7, 2),
            actual: Some(version(7, 1)),
        })
    );
    assert_eq!(
        text(address(sealed_row(2, 0), Some(version(7, 1))), Err(StoreError::Closing), false),
        Err(MaterializationError::MissingSource { row_id: sealed_row(2, 0) })
    );
    assert_eq!(
        text(address(here, Some(version(1, 1))), Err(StoreError::Closing), false),
        Err(MaterializationError::Storage(StoreError::Closing))
    );
    assert_eq!(
        text(address(here, None), Ok(()), false),
        Err(MaterializationError::MissingIdentity { row_id: here })
    );
    assert_eq!(
        text(address(here, Some(version(9, 1))), Ok(()), true),
        Err(MaterializationError::AllocationFailed { bytes: 4 })
    );
    assert_eq!(
        text(Err(MaterializationError::ArithmeticOverflow), Ok(()), false),
        Err(MaterializationError::ArithmeticOverflow)
    );
    assert_eq!(
        materializer.counts,
        MaterializationCounters { row_lookups: 7, text_copies: 2, text_bytes: 9 }
    );
}

#[test]
fn a_planted_identity_is_noticed() {
    let mut flags = StopFlags::new();
    let clock = ManualMonotonicClock::new();
    let mut materializer = materializer(&mut flags);
    let rows = active(&[(version(9, 1), Some("nine"))]);
    let here = GlobalRowId::new(RowSource::Active, 0);
    let ranked = Ok(ResultAddress { row_id: here, document: Some(version(9, 1)) });
    let cancellation = materializer.cancellation;
    assert_eq!(
        materializer.text_with_test_document(
            &vec![],
            &rows,
            ranked.clone(),
            Some(version(9, 2)),
            Ok(()),
            false,
            &mut board_poll(cancellation, &mut flags, &clock)
        ),
        Err(MaterializationError::IdentityMismatch {
            row_id: here,
            expected: version(9, 2),
            actual: Some(version(9, 1)),
        })
    );
    assert_eq!(
        materializer.text_with_test_document(
            &vec![],
            &rows,
            ranked,
            None,
            Ok(()),
            false,
            &mut board_poll(cancellation, &mut flags, &clock)
        ),
        Err(MaterializationError::MissingIdentity { row_id: here })
    );
}

#[test]
fn a_stopped_query_materializes_nothing() {
    let mut flags = StopFlags::new();
    let mut clock = ManualMonotonicClock::starting_at(0);
    let deadline = Deadline::after_with_test_clock(5, &clock, &mut flags).expect("deadline");
    let lease = flags.add_flag();
    let mut materializer =
        QueryMaterializer::new(QueryCancellation::new(QueryControl::Deadline(deadline), lease));
    let rows = active(&[(version(9, 1), Some("nine"))]);
    let address =
        ResultAddress { row_id: GlobalRowId::new(RowSource::Active, 0), document: Some(version(9, 1)) };
    clock.advance(5);
    let mut poll = board_poll(materializer.cancellation, &mut flags, &clock);
    assert_eq!(
        materializer.text(&vec![], &rows, Ok(address), Ok(()), false, &mut poll),
        Err(MaterializationError::Query(QueryError::Timeout { partial: false }))
    );
    assert_eq!(materializer.counts.row_lookups, 0);
}

/// Passes checks until the one that finds a stop, and counts them.
struct Scripted {
    made: usize,
    stop_at: usize,
}

impl StopSource for Scripted {
    fn look(&mut self, _query: &QueryCancellation) -> Result<(), ScanError> {
        self.made += 1;
        if self.made >= self.stop_at {
            Err(ScanError::Cancelled { partial: false })
        } else {
            Ok(())
        }
    }
}

#[test]
fn a_stop_behind_the_copy_leaves_the_copy_counted() {
    let rows = active(&[(version(9, 1), Some("nine"))]);
    let address = ResultAddress {
        row_id: GlobalRowId::new(RowSource::Active, 0),
        document: Some(version(9, 1)),
    };
    let ask = |stop_at| {
        let mut flags = StopFlags::new();
        let mut materializer = materializer(&mut flags);
        let source = Scripted { made: 0, stop_at };
        let mut poll = StopPoll::new(materializer.cancellation, source);
        let text = materializer.text(&vec![], &rows, Ok(address), Ok(()), false, &mut poll);
        (text.map(|row| row.text), materializer.counts.text_copies, poll.source.made)
    };
    let stopped = || Err(MaterializationError::Query(QueryError::Cancelled { partial: false }));
    assert_eq!(ask(1), (stopped(), 0, 1));
    assert_eq!(ask(2), (stopped(), 1, 2));
    assert_eq!(ask(3), (Ok("nine".to_owned()), 1, 2));
}

#[test]
fn a_stop_before_the_request_leaves_the_materializer_as_it_was() {
    let mut flags = StopFlags::new();
    let clock = ManualMonotonicClock::new();
    let token = CancelToken::new(&mut flags);
    let lease = flags.add_flag();
    let mut materializer =
        QueryMaterializer::new(QueryCancellation::new(QueryControl::Cancel(token), lease));
    let rows = active(&[(version(9, 1), Some("nine"))]);
    let address = ResultAddress {
        row_id: GlobalRowId::new(RowSource::Active, 0),
        document: Some(version(9, 1)),
    };
    token.cancel(&mut flags);
    for address in [Ok(address), Err(MaterializationError::ArithmeticOverflow)] {
        let mut poll = board_poll(materializer.cancellation, &mut flags, &clock);
        assert_eq!(
            materializer.text(&vec![], &rows, address, Ok(()), true, &mut poll),
            Err(MaterializationError::Query(QueryError::Cancelled { partial: false }))
        );
    }
    assert_eq!(
        materializer.counts,
        MaterializationCounters { row_lookups: 0, text_copies: 0, text_bytes: 0 }
    );
}

#[test]
fn astra_19_overlap_uses_one_snapshot_despite_concurrent_ingest() {
    let mut flags = StopFlags::new();
    let clock = ManualMonotonicClock::new();
    let mut store = open(&mut flags);
    let mut counters = MaterializationTestCounters::new();
    let original = active(&[(version(1, 1), Some("bronze original"))]);
    let replaced = active(&[
        (version(1, 1), Some("bronze original")),
        (version(1, 2), Some("bronze replacement")),
    ]);
    let text = |lease: &SnapshotLease, rows: &ActiveFacts, row, document, flags: &mut StopFlags| {
        let control = QueryControl::Cancel(CancelToken::new(flags));
        let mut materializer =
            QueryMaterializer::new(QueryCancellation::new(control, lease.flag));
        let address =
            ResultAddress { row_id: GlobalRowId::new(RowSource::Active, row), document };
        let mut poll = board_poll(materializer.cancellation, flags, &clock);
        materializer
            .text(&vec![], rows, Ok(address), Ok(()), false, &mut poll)
            .expect("text")
    };
    // The query is admitted before its vector is there.
    let pinned = store.admit_lexical_query().expect("admitted");
    counters.admitted();
    let admitted = pinned.generation();
    // A mutation is published while the vector is pending.
    store
        .publish_snapshot(PublishedSnapshot::empty(admitted + 1, plain_schema(), &mut flags))
        .expect("mutation while fake embedding is pending");
    let row = text(&pinned, &original, 0, Some(version(1, 1)), &mut flags);
    let control = QueryControl::Cancel(CancelToken::new(&mut flags));
    let ran: DeferredQuery<_, (), Infallible> =
        DeferredQuery::Searched(Ok((pinned.generation(), row)));
    let (generation, row) = match Store::search_hybrid_with_text_deferred(
        ran,
        &QueryCancellation::new(control, pinned.flag),
        &mut flags,
        0,
    ) {
        Ok(found) => found,
        Err(_) => panic!("query"),
    };
    assert_eq!(generation, admitted);
    assert_eq!(row.document.revision, Revision::new(1));
    assert_eq!(row.text, "bronze original");
    assert_eq!(counters.admissions, 1);
    store.query_finished();
    let fresh = store.admit_lexical_query().expect("fresh query");
    assert_eq!(fresh.generation(), admitted + 1);
    let row = text(&fresh, &replaced, 1, Some(version(1, 2)), &mut flags);
    assert_eq!(row.document.revision, Revision::new(2));
}

#[test]
fn work_counts_do_not_wrap() {
    let mut flags = StopFlags::new();
    let mut materializer = materializer(&mut flags);
    let rows = active(&[(version(9, 1), Some("nine"))]);
    let address =
        ResultAddress { row_id: GlobalRowId::new(RowSource::Active, 0), document: Some(version(9, 1)) };
    materializer.counts.text_bytes = u64::MAX - 3;
    let refused = materializer.materialize_address(&vec![], &rows, address, Ok(()), false);
    assert_eq!(refused, Err(MaterializationError::ArithmeticOverflow));
    assert_eq!(materializer.counts.row_lookups, 1);
    assert_eq!(materializer.counts.text_copies, 0);
    materializer.counts.row_lookups = u64::MAX;
    let refused = materializer.materialize_address(&vec![], &rows, address, Ok(()), false);
    assert_eq!(refused, Err(MaterializationError::ArithmeticOverflow));
}

#[test]
fn materialization_failures_say_what_is_missing() {
    let row_id = sealed_row(12, 3);
    let words = MaterializationWords {
        row: "(the row)".to_owned(),
        document: "(the document)".to_owned(),
        found: "(what is there)".to_owned(),
        inner: "inner".to_owned(),
    };
    let text = |error: MaterializationError| error.message(&words);
    assert_eq!(
        text(MaterializationError::RankOutOfRange { rank: 4, returned: 2 }),
        "result rank 4 is outside 2 returned rows"
    );
    assert_eq!(
        text(MaterializationError::MissingIdentity { row_id }),
        "result row (the row) has no document identity"
    );
    assert_eq!(
        text(MaterializationError::MissingText { row_id, document: version(7, 2) }),
        "result row (the row) for (the document) has no stored text"
    );
    assert_eq!(
        text(MaterializationError::MissingSource {
            row_id: GlobalRowId::new(RowSource::Active, 3)
        }),
        "result row (the row) is outside the admitted snapshot"
    );
    assert_eq!(
        text(MaterializationError::InvalidLexicalSource { source: 6 }),
        "lexical result source 6 is outside the admitted assembly"
    );
    assert_eq!(
        text(MaterializationError::MissingFusedIdentity { document: DocId::new(8) }),
        "fused document (the document) has no ranked source identity"
    );
    assert_eq!(
        text(MaterializationError::IdentityMismatch {
            row_id,
            expected: version(7, 2),
            actual: None,
        }),
        "result row (the row) expected (the document), found (what is there)"
    );
    assert_eq!(
        text(MaterializationError::AllocationFailed { bytes: 40 }),
        "result text allocation of 40 bytes failed"
    );
    assert_eq!(
        text(MaterializationError::ArithmeticOverflow),
        "result materialization counter overflow"
    );
    assert_eq!(text(MaterializationError::Storage(StoreError::Closing)), "inner");
}

#[test]
fn a_failed_search_is_no_failed_preparation() {
    let stop = FusionError::Cancelled { partial: false };
    match HybridPreparationError::<u8>::from(stop.clone()) {
        HybridPreparationError::Search(error) => assert_eq!(error, stop),
        other => panic!("{other:?}"),
    }
}

#[test]
fn stored_text_is_that_of_one_exact_revision() {
    let mut flags = StopFlags::new();
    let mut store = open(&mut flags);
    let segments = vec![
        segment(1, &[(version(7, 1), Some("sealed one")), (version(8, 1), None)]),
        segment(2, &[(version(7, 1), Some("later copy")), (version(7, 2), Some("old two"))]),
    ];
    let rows = active(&[(version(7, 2), Some("two")), (version(7, 3), Some("three"))]);
    let mut stored = |asked, fault| store.stored_text(&segments, &rows, asked, fault);
    assert_eq!(stored(version(7, 3), None), Ok(Some("three".to_owned())));
    assert_eq!(stored(version(7, 2), None), Ok(Some("old two".to_owned())));
    assert_eq!(stored(version(7, 1), None), Ok(Some("sealed one".to_owned())));
    assert_eq!(stored(version(8, 1), None), Ok(None));
    assert_eq!(stored(version(9, 1), None), Ok(None));
    let closing = Err(StoreLexicalError::Query(QueryError::Store(StoreError::Closing)));
    assert_eq!(
        stored(version(7, 3), Some(StoredTextFault::ActiveText(StoreError::Closing))),
        closing
    );
    let lookup = |ordinal| Some(StoredTextFault::Lookup { ordinal, error: StoreError::Closing });
    assert_eq!(stored(version(7, 2), lookup(1)), closing);
    assert_eq!(stored(version(7, 1), lookup(1)), Ok(Some("sealed one".to_owned())));
    let damaged = SegmentError::Other("damaged".to_owned());
    assert_eq!(
        stored(version(8, 1), Some(StoredTextFault::Text { ordinal: 0, error: damaged.clone() })),
        Err(StoreLexicalError::Query(QueryError::Store(StoreError::Segment(damaged))))
    );
    assert_eq!(store.active_queries, 0);
    store.begin_close();
    assert_eq!(store.stored_text(&segments, &rows, version(7, 1), None), closing);
}

fn written(column: u32, value: PredicateValue) -> WrittenValue {
    WrittenValue { column, value }
}

fn entry(column: u32, value: Option<PredicateValue>) -> ColumnValue {
    ColumnValue { column, value }
}

#[test]
fn metadata_of_an_active_row_follows_the_schema() {
    let mut flags = StopFlags::new();
    let mut store = open(&mut flags);
    let metadata =
        ActiveMetadata { schema: vec![4, 0, 2], timestamp_column: 0, timestamps: vec![-5, 6] };
    let row = GlobalRowId::new(RowSource::Active, 1);
    let values = || {
        Ok(vec![
            written(4, PredicateValue::Bool(true)),
            written(4, PredicateValue::Bool(false)),
            written(9, PredicateValue::U64(1)),
        ])
    };
    assert_eq!(
        store.test_metadata_row_values(row, &metadata, values(), vec![]),
        Ok(vec![
            entry(4, Some(PredicateValue::Bool(true))),
            entry(0, Some(PredicateValue::I64(6))),
            entry(2, None),
        ])
    );
    assert_eq!(
        store.test_metadata_row_values(
            GlobalRowId::new(RowSource::Active, 2),
            &metadata,
            values(),
            vec![]
        ),
        Err(StoreError::ActiveRowOverflow)
    );
    assert_eq!(
        store.test_metadata_row_values(row, &metadata, Err(StoreError::Closing), vec![]),
        Err(StoreError::Closing)
    );
    store.active = None;
    assert_eq!(
        store.test_metadata_row_values(row, &metadata, values(), vec![]),
        Err(StoreError::Closed)
    );
}

#[test]
fn metadata_of_a_sealed_row_comes_from_its_columns() {
    let mut flags = StopFlags::new();
    let store = open(&mut flags);
    let metadata = ActiveMetadata { schema: vec![], timestamp_column: 0, timestamps: vec![] };
    let columns = |schema: Vec<u32>| SealedColumns {
        row_count: 2,
        schema,
        columns: vec![SealedColumn {
            column: 3,
            values: vec![None, Some(PredicateValue::String("red".to_owned()))],
        }],
    };
    let sealed = |columns| vec![SealedMetadata { id: SegmentId { value: 1 }, columns }];
    let read = |row, sealed| store.test_metadata_row_values(row, &metadata, Ok(vec![]), sealed);
    let geometry =
        |geometry| Err(StoreError::Segment(SegmentError::Geometry(geometry)));
    assert_eq!(
        read(sealed_row(1, 1), sealed(Ok(columns(vec![3])))),
        Ok(vec![entry(3, Some(PredicateValue::String("red".to_owned())))])
    );
    assert_eq!(
        read(sealed_row(1, 0), sealed(Ok(columns(vec![3])))),
        Ok(vec![entry(3, None)])
    );
    assert_eq!(
        read(sealed_row(1, 2), sealed(Ok(columns(vec![3])))),
        geometry(Geometry::MetadataRowOutside { row: 2, rows: 2 })
    );
    assert_eq!(
        read(sealed_row(1, 0), sealed(Ok(columns(vec![3, 8])))),
        geometry(Geometry::MetadataColumnMissing(8))
    );
    assert_eq!(
        read(sealed_row(2, 0), sealed(Ok(columns(vec![3])))),
        geometry(Geometry::MetadataRowSegmentAbsent(SegmentId { value: 2 }))
    );
    let damaged = SegmentError::Other("damaged".to_owned());
    assert_eq!(
        read(sealed_row(1, 0), sealed(Err(damaged.clone()))),
        Err(StoreError::Segment(damaged))
    );
}

#[test]
fn a_source_is_evaluated_over_its_live_rows() {
    let mut flags = StopFlags::new();
    let store = open(&mut flags);
    let facts = || SourceFacts { row_count: Ok(3), alive: Ok(vec![true, false, true]) };
    let evaluated = store
        .test_metadata_evaluate_source(RowSource::Active, facts(), vec![], Ok(vec![2]))
        .expect("evaluation");
    assert_eq!(evaluated.row_count, 3);
    assert_eq!(evaluated.alive, vec![0, 2]);
    assert_eq!(evaluated.matches, vec![2]);
    let sealed = || {
        vec![SealedSource {
            id: SegmentId { value: 1 },
            facts: SourceFacts { row_count: Ok(1), alive: Ok(vec![true]) },
        }]
    };
    let source = |value| RowSource::Sealed(SegmentId { value });
    let evaluated = store
        .test_metadata_evaluate_source(source(1), facts(), sealed(), Ok(vec![]))
        .expect("evaluation");
    assert_eq!(evaluated.alive, vec![0]);
    assert_eq!(
        store
            .test_metadata_evaluate_source(source(2), facts(), sealed(), Ok(vec![]))
            .map(|_| ()),
        Err(StoreError::Segment(SegmentError::Geometry(Geometry::MetadataSourceSegmentAbsent(
            SegmentId { value: 2 }
        ))))
    );
    assert_eq!(
        store
            .test_metadata_evaluate_source(
                RowSource::Active,
                facts(),
                vec![],
                Err("unknown column".to_owned())
            )
            .map(|_| ()),
        Err(StoreError::Segment(SegmentError::Columns(
            "test metadata source evaluation: unknown column".to_owned()
        )))
    );
}
