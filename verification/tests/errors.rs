use zeppelin_embed::error::{
    DurabilityPolicyError, Geometry, GraphSearchError, IoError, ManifestError, QuantError,
    QueryError, ScanError, Schema, SegmentError, StoreError, StoreErrorKind, StoreLockError,
};
use zeppelin_embed::fusion::{
    resolve_hybrid_leg_results, FusionError, FusionLeg, LegFailureKind,
};
use zeppelin_embed::ids::{DocId, EpochIdentity, EpochMismatch, Revision, SegmentId};

fn other(text: &str) -> IoError {
    IoError::other(text)
}

fn schema(label: &str) -> Schema {
    Schema { columns: vec![], label: label.to_owned() }
}

#[test]
fn accounting_errors_report_the_typed_context() {
    let statistics = StoreError::Statistics {
        component: "mapped resident bytes",
        source: IoError::other("mincore failed"),
    };
    assert_eq!(
        statistics.message(""),
        "store statistics mapped resident bytes: mincore failed"
    );
    assert_eq!(statistics.source(""), Some("mincore failed".to_owned()));

    let budget = StoreError::BudgetExceeded {
        needed: 65,
        budget: 64,
        component: "wal",
    };
    assert_eq!(
        budget.message(""),
        "store wal allocation needs 65 bytes, budget is 64 bytes"
    );
    assert!(budget.source("").is_none());

    let allocation = StoreError::AllocationFailed {
        needed: 23,
        component: "snapshot",
    };
    assert_eq!(
        allocation.message(""),
        "store snapshot allocator rejected 23 bytes"
    );
    assert!(allocation.source("").is_none());
}

#[test]
fn hybrid_dual_failure_precedence_is_independent_of_leg_completion_order() {
    let vector_failure = FusionError::Leg {
        leg: FusionLeg::Vector,
        kind: LegFailureKind::Scan,
        detail: "vector failure".to_owned(),
    };
    let lexical_failure = FusionError::Leg {
        leg: FusionLeg::Lexical,
        kind: LegFailureKind::Lexical,
        detail: "lexical failure".to_owned(),
    };
    assert_eq!(
        resolve_hybrid_leg_results::<(), ()>(
            Err(vector_failure.clone()),
            Err(lexical_failure.clone()),
        ),
        Err(vector_failure.clone()),
    );
    assert_eq!(
        resolve_hybrid_leg_results::<(), ()>(
            Err(vector_failure.clone()),
            Err(FusionError::Cancelled { partial: false }),
        ),
        Err(FusionError::Cancelled { partial: false }),
    );
    assert_eq!(
        resolve_hybrid_leg_results::<(), ()>(
            Err(FusionError::Timeout { partial: false }),
            Err(FusionError::ReadCancelled { partial: false }),
        ),
        Err(FusionError::ReadCancelled { partial: false }),
    );
    assert_eq!(
        resolve_hybrid_leg_results::<(), ()>(
            Err(FusionError::Cancelled { partial: false }),
            Err(FusionError::Timeout { partial: false }),
        ),
        Err(FusionError::Timeout { partial: false }),
    );
    assert_eq!(
        resolve_hybrid_leg_results::<(), ()>(
            Err(FusionError::ReadCancelled { partial: false }),
            Err(lexical_failure),
        ),
        Err(FusionError::ReadCancelled { partial: false }),
    );
}

#[test]
fn every_store_failure_has_its_kind_and_its_words() {
    let io = |text: &str| other(text);
    let path = || "/s".to_owned();
    let text = |text: &str| text.to_owned();
    let cases: Vec<(StoreError, StoreErrorKind, &str, Option<&str>)> = vec![
        (
            StoreError::Io { path: path(), source: io("gone") },
            StoreErrorKind::Io,
            "store I/O /s: gone",
            Some("gone"),
        ),
        (
            StoreError::NotDirectory { path: path() },
            StoreErrorKind::InvalidArgument,
            "store path is not a directory: /s",
            None,
        ),
        (
            StoreError::StoreBusy { path: path() },
            StoreErrorKind::StoreBusy,
            "store already has a writer: /s",
            None,
        ),
        (
            StoreError::Kernel(text("no kernel")),
            StoreErrorKind::Unsupported,
            "no kernel",
            Some("no kernel"),
        ),
        (
            StoreError::Manifest(ManifestError::Other(text("torn"))),
            StoreErrorKind::Corrupt,
            "torn",
            Some("torn"),
        ),
        (
            StoreError::Tokenizer(text("unknown")),
            StoreErrorKind::InvalidArgument,
            "store tokenizer: unknown",
            Some("unknown"),
        ),
        (
            StoreError::EpochUndeclared,
            StoreErrorKind::EpochUndeclared,
            "store epoch is persisted but the caller declared none",
            None,
        ),
        (
            StoreError::EpochUnstamped,
            StoreErrorKind::EpochUnstamped,
            "store manifest predates epoch identity and cannot adopt a declaration",
            None,
        ),
        (
            StoreError::SchemaMismatch { persisted: schema("A"), declared: schema("B") },
            StoreErrorKind::InvalidArgument,
            "declared store schema B does not match persisted schema A",
            None,
        ),
        (
            StoreError::Segment(SegmentError::Other(text("bad block"))),
            StoreErrorKind::Corrupt,
            "bad block",
            Some("bad block"),
        ),
        (
            StoreError::GraphUnavailable { segment_id: SegmentId { value: 4 } },
            StoreErrorKind::Unsupported,
            "sealed segment 4 has no graph region",
            None,
        ),
        (StoreError::Wal(text("log")), StoreErrorKind::Corrupt, "log", Some("log")),
        (StoreError::WalRecovery(text("tail")), StoreErrorKind::Corrupt, "tail", Some("tail")),
        (
            StoreError::WalRecord { seq: 7, source: text("short") },
            StoreErrorKind::Corrupt,
            "WAL sequence 7 retained record: short",
            Some("short"),
        ),
        (
            StoreError::WalMutation { seq: 7, op: 3, source: text("short") },
            StoreErrorKind::Corrupt,
            "WAL sequence 7 operation 3 payload: short",
            Some("short"),
        ),
        (
            StoreError::WalRevisionOrder {
                seq: 7,
                doc_id: DocId::new(9),
                current: Revision::new(4),
                attempted: Revision::new(2),
            },
            StoreErrorKind::Corrupt,
            "WAL sequence 7 document 9 revision 2 does not follow 4",
            None,
        ),
        (
            StoreError::UnsupportedWalMutation { seq: 7, op: 3 },
            StoreErrorKind::Unsupported,
            "WAL sequence 7 operation 3 has no active-segment recovery path",
            None,
        ),
        (StoreError::WalWrite(text("full")), StoreErrorKind::Io, "full", Some("full")),
        (StoreError::WalRetire(text("held")), StoreErrorKind::Io, "held", Some("held")),
        (
            StoreError::DimensionMismatch { expected: 4, actual: 5 },
            StoreErrorKind::DimensionMismatch,
            "active vector dimension 5 does not match 4",
            None,
        ),
        (
            StoreError::ActiveRowOverflow,
            StoreErrorKind::Internal,
            "active segment row or byte geometry overflow",
            None,
        ),
        (
            StoreError::EmptyActiveSegment,
            StoreErrorKind::EmptyBatch,
            "active segment is empty",
            None,
        ),
        (
            StoreError::SealCancelled,
            StoreErrorKind::Cancelled,
            "seal was cancelled before commit",
            None,
        ),
        (StoreError::ReadOnly, StoreErrorKind::ReadOnly, "store handle is read-only", None),
        (
            StoreError::SealedTombstoneRecoveryRequired,
            StoreErrorKind::ReadOnly,
            "store requires writable sealed-tombstone recovery before reads are safe",
            None,
        ),
        (
            StoreError::ForeignPreparedSegment,
            StoreErrorKind::Internal,
            "prepared segment belongs to another store",
            None,
        ),
        (
            StoreError::GenerationOverflow,
            StoreErrorKind::Internal,
            "store snapshot generation overflow",
            None,
        ),
        (
            StoreError::ConcurrentActiveMutation { expected_generation: 4, actual_generation: 6 },
            StoreErrorKind::Internal,
            "active generation changed from 4 to 6 while preparing a commit",
            None,
        ),
        (
            StoreError::PartitionBytesOverflow,
            StoreErrorKind::Internal,
            "partition reclaimed-byte count overflow",
            None,
        ),
        (
            StoreError::PurgeRecovery { detail: text("half") },
            StoreErrorKind::Corrupt,
            "physical purge recovery failed: half",
            None,
        ),
        (StoreError::Closing, StoreErrorKind::Closing, "store is closing", None),
        (StoreError::Closed, StoreErrorKind::Closed, "store is closed", None),
        (
            StoreError::ReadCancelled,
            StoreErrorKind::Cancelled,
            "store close cancelled the admitted read",
            None,
        ),
        (
            StoreError::BackgroundStart { source: io("no thread") },
            StoreErrorKind::Io,
            "store lifecycle thread could not start: no thread",
            Some("no thread"),
        ),
        (
            StoreError::BackgroundHandshake,
            StoreErrorKind::Internal,
            "store lifecycle thread startup handshake failed",
            None,
        ),
        (
            StoreError::BackgroundThreadPanicked,
            StoreErrorKind::Panic,
            "store lifecycle thread panicked",
            None,
        ),
        (
            StoreError::QueryPoolStart { source: io("no thread") },
            StoreErrorKind::Io,
            "store query worker could not start: no thread",
            Some("no thread"),
        ),
        (
            StoreError::QueryPoolHandshake,
            StoreErrorKind::Internal,
            "store query worker startup handshake failed",
            None,
        ),
        (
            StoreError::QueryPoolThreadPanicked,
            StoreErrorKind::Panic,
            "store query worker panicked",
            None,
        ),
        (
            StoreError::QueryPoolCapacity { source: text("too many") },
            StoreErrorKind::Internal,
            "store query worker capacity failed: too many",
            None,
        ),
        (
            StoreError::Synchronization { component: "snapshot" },
            StoreErrorKind::Synchronization,
            "store lifecycle synchronization poisoned: snapshot",
            None,
        ),
    ];
    for (error, kind, message, source) in cases {
        assert_eq!(error.kind(), kind, "{message}");
        assert_eq!(error.message("unused"), message);
        assert_eq!(error.source("unused").as_deref(), source, "{message}");
    }
}

#[test]
fn a_carried_failure_speaks_for_the_store() {
    let lock = StoreLockError::Io { path: "/s/lock".to_owned(), source: other("denied") };
    let carried = StoreError::Lock(lock.clone());
    assert_eq!(carried.kind(), StoreErrorKind::Io);
    assert_eq!(carried.message(""), lock.message());
    assert_eq!(carried.source(""), Some(lock.message()));
    let durability = DurabilityPolicyError::AttachedNotYetSupported;
    let carried = StoreError::Durability(durability);
    assert_eq!(carried.kind(), StoreErrorKind::Unsupported);
    assert_eq!(carried.message(""), durability.message());
    let identity = |embedding| EpochIdentity { embedding, tokenizer: 1 };
    let carried = StoreError::EpochMismatch(EpochMismatch {
        expected: identity(1),
        declared: identity(2),
    });
    assert_eq!(carried.kind(), StoreErrorKind::EpochMismatch);
    assert_eq!(carried.message("epoch 2 is not 1"), "epoch 2 is not 1");
    assert_eq!(carried.source("epoch 2 is not 1"), Some("epoch 2 is not 1".to_owned()));
    let vector = StoreError::WalVector { seq: 3, source: QuantError::EmptyVector };
    assert_eq!(vector.kind(), StoreErrorKind::Corrupt);
    assert_eq!(vector.message("no values"), "WAL sequence 3 vector: no values");
    assert_eq!(vector.source("no values"), Some("no values".to_owned()));
    let ahead = StoreError::Manifest(ManifestError::AheadOfLog { snapshot: 2, durable: 1 });
    assert_eq!(ahead.kind(), StoreErrorKind::Corrupt);
    assert_eq!(ahead.message("2 is past 1"), "2 is past 1");
    assert_eq!(ahead.source("2 is past 1"), Some("2 is past 1".to_owned()));
    assert_eq!(QueryError::Store(ahead).message("2 is past 1"), "2 is past 1");
    let statistics = StoreError::Statistics { component: "a", source: other("b") };
    assert_eq!(statistics.kind(), StoreErrorKind::Io);
    let budget = StoreError::BudgetExceeded { needed: 2, budget: 1, component: "cache" };
    assert_eq!(budget.kind(), StoreErrorKind::BudgetExceeded);
    let memory = StoreError::AllocationFailed { needed: 2, component: "cache" };
    assert_eq!(memory.kind(), StoreErrorKind::OutOfMemory);
}

#[test]
fn a_broken_geometry_is_named() {
    let id = SegmentId { value: 6 };
    let cases = vec![
        (
            Geometry::MetadataRowSegmentAbsent(id),
            "public metadata row names absent segment 6",
        ),
        (
            Geometry::MetadataRowOutside { row: 4, rows: 3 },
            "public metadata row 4 is outside 3 rows",
        ),
        (Geometry::MetadataColumnMissing(2), "public metadata row is missing column 2"),
        (
            Geometry::MetadataSourceSegmentAbsent(id),
            "metadata source evaluation names absent segment 6",
        ),
        (
            Geometry::NormEnclosureScheme(3),
            "vector norm enclosure does not support scheme 3",
        ),
        (
            Geometry::NormEnclosureNotFinite,
            "vector norm enclosure did not produce a finite squared-L2 ceiling",
        ),
        (Geometry::SealedScheme(3), "store search does not support sealed scheme 3"),
        (
            Geometry::ExactScoresUnavailable { segment: id, expected: 5, available: 4 },
            "exact scores unavailable for segment 6: expected 5 rows, got 4",
        ),
        (
            Geometry::DistanceNotRepresentable(8),
            "graph result distance for row 8 is not representable as f32",
        ),
        (
            Geometry::TraversalExhausted { candidates: 9, retained: 2, expected: 4 },
            "graph traversal exhausted 9 candidates but retained 2 live rows, expected 4",
        ),
        (
            Geometry::HopCancellationWithoutToken,
            "test hop cancellation requires a Cancel query control",
        ),
        (
            Geometry::ForeignPreparedVector,
            "prepared vector context belongs to another query or epoch",
        ),
        (Geometry::ScratchPoolCapacityZero, "graph scratch pool capacity is zero"),
        (
            Geometry::ScratchCapacity { actual: 5, requested: 4 },
            "scratch capacity is 5 bytes, expected exact reservation 4",
        ),
        (Geometry::Text("as it is".to_owned()), "as it is"),
    ];
    for (geometry, message) in cases {
        assert_eq!(geometry.message(), message);
    }
}

#[test]
fn a_query_failure_says_whether_rows_were_returned() {
    assert_eq!(
        QueryError::Store(StoreError::Closed).message(""),
        StoreError::Closed.message("")
    );
    for error in [
        QueryError::Scan(ScanError::ZeroDimension),
        QueryError::Graph(GraphSearchError::Cancelled { partial: false }),
    ] {
        assert_eq!(error.message("engine words"), "engine words");
    }
    assert_eq!(
        QueryError::Timeout { partial: true }.message(""),
        "query deadline expired (partial=true)"
    );
    assert_eq!(
        QueryError::Cancelled { partial: false }.message(""),
        "query was cancelled (partial=false)"
    );
    assert_eq!(
        QueryError::ReadCancelled { partial: false }.message(""),
        "store close cancelled query (partial=false)"
    );
}
