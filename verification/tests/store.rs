use zeppelin_embed::accounting::Accounting;
use zeppelin_embed::candidates::{ScanCandidate, ScanOutcome, ScanStats};
use zeppelin_embed::clock::LATEST_INSTANT;
use zeppelin_embed::control::{CancelToken, QueryControl, StopFlags, StopState};
use zeppelin_embed::durability::{
    CommitTier, DurabilityMode, DurabilityPolicy, SyncKind, SyncRequirement,
};
use zeppelin_embed::error::{
    DurabilityPolicyError, IoError, IoErrorKind, ManifestError, QueryError, Schema, SegmentError,
    StoreError, StoreLockError,
};
use zeppelin_embed::fusion::{FusionError, FusionLeg};
use zeppelin_embed::ids::{EpochIdentity, SegmentId};
use zeppelin_embed::lock::{
    map_lock_error, takes_writer_lock, HeldStores, LockCall, StoreKey, STORE_LOCK_FILE,
};
use zeppelin_embed::open::{
    finish_open, validate_epoch_identity, validate_tokenizer_epoch, OpenPlan, OpenStage,
    RecoveredActive,
};
use zeppelin_embed::options::{
    AccessMode, GraphSearchProfile, HybridExecutionReceipt, OpenOptions, ScanOptions,
    SearchOptions, StoreEpoch, StoreState, TokenizerConfig,
};
use zeppelin_embed::score::Score;
use zeppelin_embed::snapshot::{
    drain_deadline, DrainStep, EpochMeta, Manifest, ManifestRead, PublishedSnapshot, SegmentMeta,
    SnapshotLease,
};
use zeppelin_embed::store::{
    ActiveHandle, CloseEntry, InMemorySegment, InMemorySegmentFactors, PoolStart, Store,
    TeardownProbe,
};

fn plain_schema() -> Schema {
    Schema { columns: vec![], label: "timestamp only".to_owned() }
}

/// Opens a fresh store: no manifest, no log, nothing persisted.
fn open(options: OpenOptions, flags: &mut StopFlags) -> Store {
    let accounting = Accounting::new(options.max_resident_bytes, options.max_temp_bytes);
    let mut plan = OpenPlan::begin("/stores/a".to_owned(), options, plain_schema(), Ok(()))
        .expect("begin");
    plan.directory_ensured(Ok(true)).expect("directory");
    if plan.stage == OpenStage::AcquireLock {
        plan.lock_acquired(Ok(())).expect("lock");
    }
    plan.manifest_probed(Err(IoError {
        kind: IoErrorKind::NotFound,
        message: "no manifest".to_owned(),
    }))
    .expect("probe");
    plan.snapshot_loaded(Ok(PublishedSnapshot::empty(0, plain_schema(), flags)))
        .expect("empty snapshot");
    plan.tokenizer_built(Ok(1)).expect("tokenizer");
    plan.active_recovered(Ok(RecoveredActive {
        active: ActiveHandle {
            generation: 0,
            rows: 0,
        },
        wal: false,
    }))
    .expect("active");
    if plan.stage == OpenStage::CommitManifest {
        plan.manifest_committed(Ok(())).expect("manifest");
    }
    if plan.stage == OpenStage::CreateWal {
        plan.wal_ready(Ok(())).expect("log");
    }
    if plan.stage == OpenStage::StartBackground {
        plan.background_started(Ok(())).expect("background");
    }
    assert_eq!(plan.stage, OpenStage::Publish);
    plan.publish(1, accounting, None, None)
}

fn close(store: &mut Store) {
    assert_eq!(store.begin_close(), CloseEntry::Proceed);
    store.take_background();
    store.take_snapshot();
    store.take_writer_lock();
    store.finish_close(Ok(())).expect("close");
}

#[test]
fn publish_swaps_a_whole_snapshot_while_existing_readers_keep_their_generation() {
    let mut flags = StopFlags::new();
    let mut store = open(OpenOptions::default(), &mut flags);
    let old_reader = store.snapshot().expect("old reader");

    store
        .publish_snapshot(PublishedSnapshot::empty(9, plain_schema(), &mut flags))
        .expect("publish generation");
    let new_reader = store.snapshot().expect("new reader");

    assert_eq!(old_reader.generation(), 0);
    assert_eq!(new_reader.generation(), 9);
    close(&mut store);
}

#[test]
fn publish_after_close_returns_the_typed_closed_error() {
    let mut flags = StopFlags::new();
    let mut store = open(OpenOptions::default(), &mut flags);
    close(&mut store);

    let result = store.publish_snapshot(PublishedSnapshot::empty(10, plain_schema(), &mut flags));

    assert!(matches!(result, Err(StoreError::Closed)));
}

#[test]
fn an_older_snapshot_does_not_turn_the_generation_back() {
    let mut flags = StopFlags::new();
    let mut store = open(OpenOptions::default(), &mut flags);
    store
        .publish_snapshot(PublishedSnapshot::empty(9, plain_schema(), &mut flags))
        .expect("newer");
    store
        .publish_snapshot(PublishedSnapshot::empty(4, plain_schema(), &mut flags))
        .expect("older");
    assert_eq!(store.snapshot().expect("lease").generation(), 9);
}

#[test]
fn background_thread_stops_before_snapshot_is_released_on_drop() {
    let mut flags = StopFlags::new();
    let mut store = open(OpenOptions::default(), &mut flags);
    let mut probe = TeardownProbe::new();

    assert_eq!(store.begin_close(), CloseEntry::Proceed);
    if store.take_background() {
        probe.record_background_stopped();
    }
    if store.take_snapshot().is_some() {
        probe.record_snapshot_released();
    }
    store.take_writer_lock();
    store.finish_close(Ok(())).expect("close");

    let (background_stopped, snapshot_released) = probe.events();
    assert!(background_stopped > 0, "background stop was not observed");
    assert!(snapshot_released > 0, "snapshot release was not observed");
    assert!(
        background_stopped < snapshot_released,
        "snapshot released at event {snapshot_released} before background stopped at event {background_stopped}"
    );
}

#[test]
fn open_options_resolve_durability_before_filesystem_mutation() {
    let options = OpenOptions::new().with_durability(DurabilityMode::Attached, CommitTier::Durable);

    let error = OpenPlan::begin("/stores/not-created".to_owned(), options, plain_schema(), Ok(()))
        .expect_err("attached durability unexpectedly opened");

    // No step was planned, so no file system call was due.
    assert!(matches!(
        error,
        StoreError::Durability(DurabilityPolicyError::AttachedNotYetSupported)
    ));
    assert!(
        !std::path::Path::new("/stores/not-created").exists(),
        "rejected open created store files"
    );
}

#[test]
fn memory_vfs_store_open_does_not_create_host_directory() {
    let mut flags = StopFlags::new();
    let mut store = open(OpenOptions::read_only(), &mut flags);
    close(&mut store);

    assert_eq!(store.state(), StoreState::Closed);
    assert!(
        !std::path::Path::new("/stores/a").exists(),
        "a store opened from memory touched the host filesystem"
    );
}

#[test]
fn open_refuses_a_manifest_ahead_of_the_checked_wal() {
    let mut flags = StopFlags::new();
    let mut plan =
        OpenPlan::begin("/stores/a".to_owned(), OpenOptions::default(), plain_schema(), Ok(()))
            .expect("begin");
    plan.directory_ensured(Ok(true)).expect("directory");
    plan.lock_acquired(Ok(())).expect("lock");
    plan.manifest_probed(Ok(())).expect("manifest");
    let snapshot = PublishedSnapshot::from_manifest(
        Manifest {
            generation: 1,
            log_seq: 1,
            segments: Vec::new(),
            epochs: Vec::new(),
            epoch_alias: None,
            schema: Schema {
                columns: Vec::new(),
                label: String::new(),
            },
        },
        Ok(Vec::new()),
        Ok(()),
        &mut flags,
    )
    .expect("snapshot");
    plan.snapshot_loaded(Ok(snapshot)).expect("loaded");
    plan.tokenizer_built(Ok(1)).expect("tokenizer");
    let error = plan
        .active_recovered(Err(StoreError::Manifest(ManifestError::AheadOfLog {
            snapshot: 1,
            durable: 0,
        })))
        .expect_err("manifest ahead of missing log unexpectedly opened");

    assert!(matches!(
        error,
        StoreError::Manifest(ManifestError::AheadOfLog {
            snapshot: 1,
            durable: 0
        })
    ));
    assert_eq!(plan.stage, OpenStage::RecoverActive);
}

#[test]
fn seal_uses_the_opened_durable_policy_for_segment_and_manifest() {
    let mut flags = StopFlags::new();
    let options = OpenOptions::new().with_durability(DurabilityMode::Durable, CommitTier::Durable);
    let mut store = open(options, &mut flags);
    let prepared = store
        .prepare_segment(&InMemorySegment {
            codes: 2,
            factors: InMemorySegmentFactors::Bit4(12),
            rescore: 16,
        })
        .expect("prepare replacement");
    assert_eq!(prepared.resident_bytes(), 30);
    let ticket = store.begin_seal(&prepared).expect("durable seal");
    assert_eq!(ticket.generation, 1);

    // Data file and directory of the segment, then of the manifest.
    let policy: DurabilityPolicy = store.durability_policy;
    let mut sync_kinds = Vec::new();
    for _ in 0..2 {
        for requirement in [policy.data_file_sync(), policy.directory_sync()] {
            if let SyncRequirement::Sync(kind) = requirement {
                sync_kinds.push(kind);
            }
        }
    }
    assert_eq!(
        sync_kinds,
        vec![SyncKind::Full; 4],
        "seal must preserve the opened policy's exact sequence"
    );
    let written = SegmentMeta {
        id: SegmentId { value: 9 },
        scheme: 4,
        dims: 8,
        row_count: 2,
        epoch_id: None,
    };
    let manifest = store
        .seal_manifest(
            &ticket,
            &prepared,
            Ok(written),
            Schema {
                columns: vec![3],
                label: "sealed".to_owned(),
            },
        )
        .expect("manifest");
    assert_eq!(manifest.generation, 1);
    assert_eq!(manifest.segments, vec![written]);
    assert_eq!(manifest.schema.columns, vec![3]);
    let generation = store
        .finish_seal(
            &ticket,
            &prepared,
            Ok(()),
            PublishedSnapshot::from_manifest(manifest, Ok(vec![64]), Ok(()), &mut flags),
        )
        .expect("sealed");
    assert_eq!(generation, 1);
    assert_eq!(store.accounting.audit().resident_bytes, 0);
    assert_eq!(store.snapshot().expect("lease").generation(), 1);
    close(&mut store);
}

#[test]
fn a_seal_that_fails_gives_its_buffers_back_and_publishes_nothing() {
    let mut flags = StopFlags::new();
    let mut store = open(OpenOptions::default(), &mut flags);
    let buffers = InMemorySegment {
        codes: 2,
        factors: InMemorySegmentFactors::Bit4(3),
        rescore: 4,
    };
    let schema = || Schema {
        columns: Vec::new(),
        label: String::new(),
    };

    let prepared = store.prepare_segment(&buffers).expect("prepare");
    let ticket = store.begin_seal(&prepared).expect("begin");
    let unwritten = store
        .seal_manifest(
            &ticket,
            &prepared,
            Err(SegmentError::Other("short write".to_owned())),
            schema(),
        )
        .expect_err("unwritten");
    assert_eq!(
        unwritten,
        StoreError::Segment(SegmentError::Other("short write".to_owned()))
    );
    assert_eq!(store.accounting.audit().resident_bytes, 0);

    let prepared = store.prepare_segment(&buffers).expect("prepare");
    let ticket = store.begin_seal(&prepared).expect("begin");
    let rejected = ManifestError::AheadOfLog {
        snapshot: 1,
        durable: 0,
    };
    let uncommitted = store.finish_seal(
        &ticket,
        &prepared,
        Err(rejected.clone()),
        Err(StoreError::Closed),
    );
    assert_eq!(uncommitted, Err(StoreError::Manifest(rejected)));
    assert_eq!(store.accounting.audit().resident_bytes, 0);

    let prepared = store.prepare_segment(&buffers).expect("prepare");
    let ticket = store.begin_seal(&prepared).expect("begin");
    let unloaded = store.finish_seal(
        &ticket,
        &prepared,
        Ok(()),
        Err(StoreError::Wal("torn".to_owned())),
    );
    assert_eq!(unloaded, Err(StoreError::Wal("torn".to_owned())));
    assert_eq!(store.accounting.audit().resident_bytes, 0);
    assert_eq!(store.snapshot().expect("lease").generation(), 0);
    close(&mut store);
}

#[test]
fn a_seal_refuses_foreign_buffers_readers_and_closed_handles() {
    let mut flags = StopFlags::new();
    let segment = InMemorySegment {
        codes: 1,
        factors: InMemorySegmentFactors::Int8(1),
        rescore: 1,
    };
    let mut store = open(OpenOptions::default(), &mut flags);
    let mut prepared = store.prepare_segment(&segment).expect("prepare");
    prepared.handle += 1;
    assert_eq!(
        store.begin_seal(&prepared),
        Err(StoreError::ForeignPreparedSegment)
    );
    assert_eq!(store.accounting.audit().resident_bytes, 3);
    prepared.handle -= 1;
    store.active = Some(ActiveHandle {
        generation: u64::MAX,
        rows: 0,
    });
    assert_eq!(
        store.begin_seal(&prepared),
        Err(StoreError::GenerationOverflow)
    );
    assert_eq!(store.accounting.audit().resident_bytes, 0);
    let late = store.prepare_segment(&segment).expect("prepare again");
    close(&mut store);
    assert_eq!(store.begin_seal(&late), Err(StoreError::Closed));
    assert_eq!(store.accounting.audit().resident_bytes, 0);

    let mut reader = open(OpenOptions::read_only(), &mut flags);
    assert_eq!(reader.prepare_segment(&segment), Err(StoreError::ReadOnly));
}

#[test]
fn a_refused_segment_charges_nothing() {
    let mut flags = StopFlags::new();
    let mut store = open(OpenOptions::new().with_max_resident_bytes(10), &mut flags);
    let refused = store.prepare_segment(&InMemorySegment {
        codes: 4,
        factors: InMemorySegmentFactors::Bit4(4),
        rescore: 4,
    });
    assert_eq!(
        refused,
        Err(StoreError::BudgetExceeded {
            needed: 12,
            budget: 10,
            component: "snapshot"
        })
    );
    assert_eq!(store.accounting.audit().resident_bytes, 0);
}

#[test]
fn close_runs_once_and_later_callers_find_it_done() {
    let mut flags = StopFlags::new();
    let mut store = open(OpenOptions::default(), &mut flags);
    assert_eq!(store.begin_close(), CloseEntry::Proceed);
    assert_eq!(store.begin_close(), CloseEntry::Wait);
    assert_eq!(store.snapshot(), Err(StoreError::Closing));
    assert!(store.take_background());
    assert!(store.take_snapshot().is_some());
    assert!(store.take_writer_lock());
    assert_eq!(
        store.finish_close(Err(StoreError::BackgroundThreadPanicked)),
        Err(StoreError::BackgroundThreadPanicked)
    );
    assert_eq!(store.begin_close(), CloseEntry::Finished);
    assert_eq!(store.snapshot(), Err(StoreError::Closed));
}

#[test]
fn dropping_a_handle_cancels_its_readers() {
    let mut flags = StopFlags::new();
    let mut store = open(OpenOptions::default(), &mut flags);
    let lease = store.snapshot().expect("lease");
    assert_eq!(lease.check_active(&flags), Ok(()));
    assert!(!lease.wait_for_close_cancellation(&flags));
    store.close_best_effort(&mut flags);
    assert_eq!(store.state(), StoreState::Closed);
    assert!(lease.is_cancelled(&flags));
    assert_eq!(lease.check_active(&flags), Err(StoreError::ReadCancelled));
    assert!(lease.wait_for_close_cancellation(&flags));
}

#[test]
fn readers_are_drained_until_the_grace_period_is_over() {
    let mut flags = StopFlags::new();
    let snapshot = PublishedSnapshot::empty(3, plain_schema(), &mut flags);
    let deadline = drain_deadline(100, 50);
    assert_eq!(deadline, Some(150));
    assert_eq!(
        snapshot.drain_step(&flags, 0, 100, deadline),
        DrainStep::Drained
    );
    assert_eq!(
        snapshot.drain_step(&flags, 2, 110, deadline),
        DrainStep::WaitUpTo(40)
    );
    assert_eq!(
        snapshot.drain_step(&flags, 2, 150, deadline),
        DrainStep::CancelReaders
    );
    snapshot.cancel_readers(&mut flags);
    assert_eq!(
        snapshot.drain_step(&flags, 2, 151, deadline),
        DrainStep::WaitForRelease
    );
    assert_eq!(drain_deadline(LATEST_INSTANT, 1), None);
}

#[test]
fn admission_counts_queries_and_starts_the_pool_where_needed() {
    let mut flags = StopFlags::new();
    let mut store = open(OpenOptions::default(), &mut flags);
    let segments = Vec::new();
    let (lease, pooled) = store
        .admit_vector_search(
            SearchOptions::new(ScanOptions { thread_budget: 1 }),
            &segments,
            PoolStart::Failed(StoreError::QueryPoolHandshake),
        )
        .expect("no pool is needed");
    assert_eq!(lease.generation(), 0);
    assert!(!pooled);
    assert_eq!(store.active_queries, 1);
    store.query_finished();
    assert_eq!(store.active_queries, 0);

    store.active = Some(ActiveHandle {
        generation: 0,
        rows: 3,
    });
    assert_eq!(
        store.admit_vector_search(
            SearchOptions::new(ScanOptions { thread_budget: 1 }),
            &segments,
            PoolStart::NoCapacity("no cores".to_owned()),
        ),
        Err(QueryError::Store(StoreError::QueryPoolCapacity {
            source: "no cores".to_owned()
        }))
    );
    assert_eq!(store.active_queries, 0);
    let (_, pooled) = store
        .admit_vector_search(SearchOptions::new(ScanOptions { thread_budget: 1 }), &segments, PoolStart::Started)
        .expect("pool");
    assert!(pooled);
    assert!(store.query_pool);
}

#[test]
fn a_scan_of_the_callers_rows_keeps_its_best() {
    let mut flags = StopFlags::new();
    let mut store = open(OpenOptions::default(), &mut flags);
    let outcome = ScanOutcome {
        candidates: (0..3)
            .map(|row_id| ScanCandidate {
                row_id,
                score: Score { bits: 0 },
            })
            .collect(),
        worst_score: None,
        stats: ScanStats {
            dims_touched: 6,
            bytes_read: 24,
            threads_used: 1,
            worker_thread_ids: vec![1],
        },
    };
    let kept = store
        .top_k_with_options(PoolStart::Started, Ok(outcome), 2)
        .expect("scan");
    assert_eq!(
        kept.candidates
            .iter()
            .map(|item| item.row_id)
            .collect::<Vec<_>>(),
        vec![0, 1]
    );
    assert_eq!(kept.stats.dims_touched, 6);
    assert_eq!(store.active_queries, 0);
    assert_eq!(store.panic_query_worker_for_test(Ok(())), Ok(()));
    close(&mut store);
    assert_eq!(
        store
            .top_k_with_options(
                PoolStart::Started,
                Err(QueryError::Cancelled { partial: false }),
                2
            )
            .err(),
        Some(QueryError::Store(StoreError::Closed))
    );
}

#[test]
fn a_pool_that_never_ran_has_no_worker_to_end() {
    let mut flags = StopFlags::new();
    let store = open(OpenOptions::default(), &mut flags);
    assert_eq!(
        store.panic_query_worker_for_test(Ok(())),
        Err(StoreError::Synchronization {
            component: "query pool initialization"
        })
    );
}

#[test]
fn the_lexical_worker_starts_once() {
    let mut flags = StopFlags::new();
    let mut store = open(OpenOptions::default(), &mut flags);
    let failure = FusionError::LegThreadStart {
        leg: FusionLeg::Lexical,
        detail: "no thread".to_owned(),
    };
    assert_eq!(
        store.ensure_lexical_worker(Err(failure.clone())),
        Err(failure.clone())
    );
    assert!(!store.lexical_worker);
    assert_eq!(store.ensure_lexical_worker(Ok(())), Ok(()));
    assert_eq!(store.ensure_lexical_worker(Err(failure)), Ok(()));
}

#[test]
fn an_execution_receipt_is_taken_once() {
    let mut flags = StopFlags::new();
    let mut store = open(OpenOptions::default(), &mut flags);
    assert!(store.take_hybrid_execution_receipt().is_none());
    let receipt = HybridExecutionReceipt {
        vector_thread: 4,
        lexical_thread_name: Some("lexical".to_owned()),
        vector_completed: true,
        lexical_completed: false,
    };
    store.hybrid_execution_receipt = Some(receipt.clone());
    assert_eq!(store.take_hybrid_execution_receipt(), Some(receipt));
    assert!(store.take_hybrid_execution_receipt().is_none());
    store.record_hybrid_execution(5, Some("worker".to_owned()));
    assert_eq!(
        store.take_hybrid_execution_receipt(),
        Some(HybridExecutionReceipt {
            vector_thread: 5,
            lexical_thread_name: Some("worker".to_owned()),
            vector_completed: true,
            lexical_completed: true,
        })
    );
}

#[test]
fn a_new_store_is_stamped_with_its_epoch() {
    let identity = EpochIdentity { embedding: 7, tokenizer: 8 };
    let options = OpenOptions::default()
        .with_epoch(StoreEpoch { identity, label: "embedding".to_owned() });
    let mut flags = StopFlags::new();
    let mut plan = OpenPlan::begin("/stores/a".to_owned(), options, plain_schema(), Ok(()))
        .expect("begin");
    plan.directory_ensured(Ok(true)).expect("directory");
    plan.lock_acquired(Ok(())).expect("lock");
    plan.manifest_probed(Err(IoError {
        kind: IoErrorKind::NotFound,
        message: "no manifest".to_owned(),
    }))
    .expect("probe");
    plan.snapshot_loaded(Ok(PublishedSnapshot::empty(0, plain_schema(), &mut flags)))
        .expect("empty snapshot");
    plan.tokenizer_built(Ok(8)).expect("tokenizer");
    let active = ActiveHandle { generation: 3, rows: 0 };
    plan.active_recovered(Ok(RecoveredActive { active, wal: false })).expect("active");
    if plan.stage == OpenStage::SyncDirectory {
        plan.directory_synced(Ok(())).expect("synced");
    }
    assert_eq!(plan.stage, OpenStage::CommitManifest);
    let meta = EpochMeta { identity, profile: Ok(GraphSearchProfile::SiftClass) };
    let manifest = plan.first_manifest(Some(meta));
    assert_eq!(manifest.generation, 3);
    assert_eq!(manifest.log_seq, 0);
    assert!(manifest.segments.is_empty());
    assert_eq!(manifest.epochs.len(), 1);
    assert_eq!(manifest.epoch_alias, Some(identity));
}

#[test]
fn cleanup_keeps_every_file_of_the_snapshot() {
    let mut flags = StopFlags::new();
    let mut store = open(OpenOptions::default(), &mut flags);
    let mut snapshot = PublishedSnapshot::empty(1, plain_schema(), &mut flags);
    snapshot.segments = (0..2)
        .map(|value| SegmentMeta {
            id: SegmentId { value },
            scheme: 4,
            dims: 8,
            row_count: 1,
            epoch_id: None,
        })
        .collect();
    snapshot.query_segment_count = 2;
    store.publish_snapshot(snapshot).expect("publish");
    assert_eq!(
        store.reachable_segments("/stores/a", &vec!["x.seg".to_owned(), "y.seg".to_owned()]),
        Ok(vec![
            "/stores/a/x.seg".to_owned(),
            "/stores/a/y.seg".to_owned()
        ])
    );
    close(&mut store);
    assert_eq!(
        store.reachable_segments("/stores/a", &Vec::new()),
        Err(StoreError::Closed)
    );
}

#[test]
fn published_segments_come_first_and_bytes_are_added() {
    let mut flags = StopFlags::new();
    let meta = |value: u128, epoch_id: Option<u64>| SegmentMeta {
        id: SegmentId { value },
        scheme: 4,
        dims: 8,
        row_count: 1,
        epoch_id,
    };
    let manifest = |segments: Vec<SegmentMeta>| Manifest {
        generation: 7,
        log_seq: 3,
        segments,
        epochs: Vec::new(),
        epoch_alias: Some(EpochIdentity {
            embedding: 5,
            tokenizer: 6,
        }),
        schema: Schema {
            columns: Vec::new(),
            label: String::new(),
        },
    };
    let snapshot = PublishedSnapshot::from_manifest(
        manifest(vec![meta(1, None), meta(2, Some(5)), meta(3, Some(5))]),
        Ok(vec![10, 20, 30]),
        Ok(()),
        &mut flags,
    )
    .expect("snapshot");
    let ids = |list: Vec<SegmentMeta>| list.iter().map(|m| m.id.value).collect::<Vec<_>>();
    assert_eq!(ids(snapshot.segments()), vec![2, 3]);
    assert_eq!(ids(snapshot.all_segments().clone()), vec![2, 3, 1]);
    assert_eq!(snapshot.mapped_bytes, 60);
    assert_eq!(snapshot.generation(), 7);
    let overflow = PublishedSnapshot::from_manifest(
        manifest(Vec::new()),
        Ok(vec![u64::MAX, 1]),
        Err(StoreError::Closed),
        &mut flags,
    )
    .expect_err("overflow");
    assert_eq!(
        overflow.message(""),
        "store statistics mapped bytes: mapped byte count overflow"
    );
    let refused = PublishedSnapshot::from_manifest(
        manifest(Vec::new()),
        Ok(vec![1]),
        Err(StoreError::BudgetExceeded {
            needed: 1,
            budget: 0,
            component: "mapped segments",
        }),
        &mut flags,
    )
    .expect_err("refused");
    assert!(matches!(refused, StoreError::BudgetExceeded { .. }));
    let unopened = PublishedSnapshot::from_manifest(
        manifest(Vec::new()),
        Err(StoreError::Wal("torn segment".to_owned())),
        Err(StoreError::Closed),
        &mut flags,
    )
    .expect_err("unopened");
    assert_eq!(unopened, StoreError::Wal("torn segment".to_owned()));
}

#[test]
fn a_directory_without_a_manifest_loads_the_empty_snapshot() {
    let mut flags = StopFlags::new();
    let missing = |kind: IoErrorKind| {
        ManifestRead::Unopened(IoError {
            kind,
            message: "manifest".to_owned(),
        })
    };
    let empty = PublishedSnapshot::load(
        "/stores/a",
        missing(IoErrorKind::NotFound),
        plain_schema(),
        &mut flags,
    )
    .expect("empty");
    assert_eq!(empty.generation(), 0);
    assert_eq!(empty.schema, plain_schema());
    assert!(empty.all_segments().is_empty());
    assert_eq!(
        PublishedSnapshot::load(
            "/stores/a",
            missing(IoErrorKind::PermissionDenied),
            plain_schema(),
            &mut flags
        )
        .expect_err("denied"),
        StoreError::Io {
            path: "/stores/a/manifest.ze".to_owned(),
            source: IoError {
                kind: IoErrorKind::PermissionDenied,
                message: "manifest".to_owned()
            },
        }
    );
    assert_eq!(
        PublishedSnapshot::load(
            "/stores/a",
            ManifestRead::NoLog("no log".to_owned()),
            plain_schema(),
            &mut flags
        )
        .expect_err("log"),
        StoreError::Wal("no log".to_owned())
    );
    let ahead = ManifestError::AheadOfLog {
        snapshot: 2,
        durable: 1,
    };
    assert_eq!(
        PublishedSnapshot::load(
            "/stores/a",
            ManifestRead::Invalid(ahead.clone()),
            plain_schema(),
            &mut flags
        )
        .expect_err("ahead"),
        StoreError::Manifest(ahead)
    );
}

#[test]
fn a_store_is_held_once_and_can_be_taken_again_after_release() {
    let mut held = HeldStores::new();
    let identity = StoreKey { device: 1, file: 2 };
    let key = held.register("/stores/a", Ok(identity)).expect("first");
    assert!(held.holds(key));
    let busy = held
        .register("/stores/a", Ok(identity))
        .expect_err("second");
    assert_eq!(
        map_lock_error(busy),
        StoreError::StoreBusy {
            path: "/stores/a/writer.lock".to_owned()
        }
    );
    let lock = held
        .complete("/stores/a", key, Ok(()), LockCall::Locked, 11, 13)
        .expect("locked");
    held.release(lock);
    assert!(!held.holds(key));
    held.register("/stores/a", Ok(identity)).expect("again");
}

#[test]
fn a_lock_that_another_process_holds_is_a_busy_store() {
    let identity = StoreKey { device: 1, file: 2 };
    for code in [11, 13] {
        let mut held = HeldStores::new();
        let key = held.register("/stores/a", Ok(identity)).expect("register");
        let error = held
            .complete(
                "/stores/a",
                key,
                Ok(()),
                LockCall::Failed {
                    code,
                    error: IoError::other("held"),
                },
                11,
                13,
            )
            .expect_err("contention");
        assert!(matches!(map_lock_error(error), StoreError::StoreBusy { .. }));
        assert!(!held.holds(key), "a failed lock leaves no entry");
    }
    let mut held = HeldStores::new();
    let key = held.register("/stores/a", Ok(identity)).expect("register");
    let error = held
        .complete(
            "/stores/a",
            key,
            Ok(()),
            LockCall::Failed {
                code: 5,
                error: IoError::other("disk"),
            },
            11,
            13,
        )
        .expect_err("failure");
    assert!(matches!(error, StoreLockError::Io { .. }));
    assert!(matches!(map_lock_error(error), StoreError::Lock(_)));
    assert!(takes_writer_lock(AccessMode::ReadWrite));
    assert!(!takes_writer_lock(AccessMode::ReadOnly));
    assert_eq!(STORE_LOCK_FILE, "writer.lock");
}

#[test]
fn declared_and_persisted_interpretations_must_agree() {
    let one = EpochIdentity {
        embedding: 1,
        tokenizer: 2,
    };
    let other = EpochIdentity {
        embedding: 1,
        tokenizer: 3,
    };
    let check = |persisted, declared, exists, mode| {
        validate_epoch_identity(persisted, declared, exists, mode)
    };
    assert_eq!(
        check(Some(one), Some(one), true, AccessMode::ReadWrite),
        Ok(())
    );
    assert!(matches!(
        check(Some(one), Some(other), true, AccessMode::ReadWrite),
        Err(StoreError::EpochMismatch(_))
    ));
    assert_eq!(
        check(Some(one), None, true, AccessMode::ReadWrite),
        Err(StoreError::EpochUndeclared)
    );
    assert_eq!(
        check(None, Some(one), true, AccessMode::ReadWrite),
        Err(StoreError::EpochUnstamped)
    );
    assert_eq!(
        check(None, Some(one), false, AccessMode::ReadWrite),
        Ok(())
    );
    assert_eq!(validate_tokenizer_epoch(Some(one), 2), Ok(()));
    assert!(matches!(
        validate_tokenizer_epoch(Some(one), 9),
        Err(StoreError::EpochMismatch(_))
    ));
    assert_eq!(validate_tokenizer_epoch(None, 9), Ok(()));
}

#[test]
fn open_failures_keep_their_order() {
    let detail = || Err("ledger".to_owned());
    assert_eq!(
        finish_open(
            AccessMode::ReadWrite,
            detail(),
            Err(StoreError::Closed),
            Err(StoreError::Closing)
        ),
        Err(StoreError::PurgeRecovery {
            detail: "ledger".to_owned()
        })
    );
    assert_eq!(
        finish_open(
            AccessMode::ReadWrite,
            Ok(()),
            Err(StoreError::Closed),
            Err(StoreError::Closing)
        ),
        Err(StoreError::Closed)
    );
}

#[test]
fn a_query_control_survives_a_lease() {
    let mut flags = StopFlags::new();
    let store = open(OpenOptions::default(), &mut flags);
    let lease: SnapshotLease = store.snapshot().expect("lease");
    let token = CancelToken::new(&mut flags);
    let control = QueryControl::Cancel(token);
    assert_eq!(flags.state(lease.flag), StopState::Active);
    assert_eq!(control.checkpoint_at(&mut flags, 5), Ok(()));
}

#[test]
fn options_keep_what_is_selected() {
    let schema = Schema { columns: vec![4, 2], label: "columns".to_owned() };
    let tokenizer = TokenizerConfig { name: "plain".to_owned() };
    let options = OpenOptions::read_only()
        .with_reader_drain_timeout(9)
        .with_max_resident_bytes(64)
        .with_max_temp_bytes(32)
        .with_schema(schema.clone())
        .with_tokenizer(tokenizer.clone());
    assert_eq!(options.access_mode, AccessMode::ReadOnly);
    assert_eq!(options.reader_drain_timeout, 9);
    assert_eq!(options.max_resident_bytes, 64);
    assert_eq!(options.max_temp_bytes, 32);
    assert_eq!(options.schema, Some(schema));
    assert_eq!(options.tokenizer, Some(tokenizer));
    assert_eq!(OpenOptions::new().reader_drain_timeout, 250_000_000);
}
