use zeppelin_embed::acknowledgment::storage_manifest_abort_wire_receipt;
use zeppelin_embed::error::IoErrorKind;
use zeppelin_embed::fault::{
    storage_artifact_name, storage_planned_segment_is_final, CorruptionReason, FormatCheck,
    OrphanCleanupReport, RecordError, StorageFaultController, StorageFaultPlan,
    StorageFaultReceipt, StorageReceiptObserved, StorageReceiptSite, StorageTestFault,
    WalRecoveryError,
};
use zeppelin_embed::ids::SegmentId;
use zeppelin_embed::paths::{file_name, join};
use zeppelin_embed::snapshot::SegmentMeta;
use zeppelin_embed::text::{parse_u32, NumberFault};
use zeppelin_embed::wal_facts::{
    storage_wal_append_facts, storage_wal_vectored_facts, AppendFacts, AppendFault, WalFraming,
};
use zeppelin_embed::watch::SegmentControllerRegistry;

fn segment(value: u128) -> SegmentId {
    SegmentId { value }
}

fn controller(fault: StorageTestFault) -> StorageFaultController {
    StorageFaultController::new(fault, StorageFaultPlan::new(7, "manifest.ze"))
}

fn framing() -> WalFraming {
    WalFraming { magic: b"ZEPPELIN".to_vec(), family: 3, header_len: 16 }
}

fn record(seq: u64, payload: usize) -> Vec<u8> {
    let mut bytes = (payload as u32).to_le_bytes().to_vec();
    bytes.extend(seq.to_le_bytes());
    bytes.extend([0; 2]);
    bytes.extend(vec![9; payload]);
    bytes.extend([0; 8]);
    bytes
}

fn header() -> Vec<u8> {
    let mut bytes = b"ZEPPELIN".to_vec();
    bytes.extend(3_u16.to_le_bytes());
    bytes.extend([0; 6]);
    bytes
}

#[test]
fn an_append_is_read_record_by_record() {
    assert_eq!(storage_wal_append_facts(&framing(), &[]), Ok(None));
    assert_eq!(storage_wal_append_facts(&framing(), &header()), Ok(None));
    let mut bytes = header();
    bytes.extend(record(41, 300));
    bytes.extend(record(42, 0));
    assert_eq!(
        storage_wal_append_facts(&framing(), &bytes),
        Ok(Some(AppendFacts { encoded_len: 344, first_seq: 41, last_seq: 42 }))
    );
    let one = record(u64::MAX, 1);
    assert_eq!(
        storage_wal_append_facts(&framing(), &one),
        Ok(Some(AppendFacts { encoded_len: 23, first_seq: u64::MAX, last_seq: u64::MAX }))
    );
    assert_eq!(
        storage_wal_append_facts(&framing(), &one[..13]),
        Err(AppendFault::TornHeader)
    );
    assert_eq!(
        storage_wal_append_facts(&framing(), &one[..22]),
        Err(AppendFault::TornBody)
    );
    let mut other_family = header();
    other_family[8] = 4;
    other_family.extend(record(1, 0));
    assert_eq!(
        storage_wal_append_facts(&framing(), &other_family),
        Err(AppendFault::TornBody)
    );
}

#[test]
fn the_buffers_of_one_append_are_one_range() {
    let buffers = vec![header(), record(5, 2), Vec::new(), record(6, 3)];
    assert_eq!(
        storage_wal_vectored_facts(&framing(), &buffers),
        Ok(Some(AppendFacts { encoded_len: 49, first_seq: 5, last_seq: 6 }))
    );
    assert_eq!(storage_wal_vectored_facts(&framing(), &vec![header()]), Ok(None));
    let torn = vec![record(5, 2), vec![1, 2]];
    assert_eq!(storage_wal_vectored_facts(&framing(), &torn), Err(AppendFault::TornHeader));
}

#[test]
fn a_torn_append_is_an_io_error_in_words() {
    let error = AppendFault::TornHeader.into_io();
    assert_eq!(error.kind, IoErrorKind::Other);
    assert_eq!(error.message, "WAL append has a torn record header");
    assert_eq!(AppendFault::TornBody.into_io().message, "WAL append has a torn record body");
    assert_eq!(
        AppendFault::LengthOverflow.into_io().message,
        "WAL record append length overflow"
    );
}

#[test]
fn every_fault_has_its_operation_and_name() {
    let omission = StorageTestFault::ListOmission { file_name: "a".to_owned() };
    assert_eq!(StorageTestFault::TornWalChecksum.operation(), "wal-prefix");
    assert_eq!(StorageTestFault::PostCommitError.operation(), "retry");
    assert_eq!(StorageTestFault::ManifestPostRename.key(), "manifest-post-rename-crash");
    assert_eq!(StorageTestFault::WrongSegmentObject.operation(), "format-check");
    assert_eq!(omission.operation(), "orphan-cleanup");
    assert_eq!(omission.key(), "list-delete-omission");
    assert_eq!(
        StorageReceiptSite::ManifestCommitAfterRename.key(),
        "ManifestCommit.AfterRename"
    );
}

#[test]
fn a_plan_holds_the_facts_it_was_given() {
    let plan = StorageFaultPlan::new(3, "wal.ze").with_offset(64).with_segment_region(
        segment(9),
        2,
        5,
    );
    assert_eq!(plan.op_index(), 3);
    assert_eq!(plan.artifact(), "wal.ze");
    assert_eq!(plan.offset(), Some(64));
    assert_eq!(plan.segment(), Some(segment(9)));
    assert_eq!(plan.region_kind(), Some(2));
    assert_eq!(plan.chunk(), Some(5));
    let plan = StorageFaultPlan::new(3, "wal.ze").with_segment(segment(4));
    assert_eq!(plan.segment(), Some(segment(4)));
    assert_eq!(plan.chunk(), None);
}

#[test]
fn a_controller_gives_one_receipt() {
    let mut controller = controller(StorageTestFault::TornWalHeader);
    assert!(!controller.record_storage_wal_recovery_fault(&WalRecoveryError::Unreadable));
    assert!(controller.record_storage_wal_recovery_fault(&WalRecoveryError::InvalidHeader(6)));
    assert!(!controller.record_storage_wal_recovery_fault(&WalRecoveryError::InvalidHeader(6)));
    assert_eq!(controller.armed_fault(), None);
    let receipt = controller.take_receipt().expect("receipt");
    assert_eq!(receipt.campaign(), "storage-durability");
    assert_eq!(receipt.operation(), "wal-prefix");
    assert_eq!(receipt.fault(), "torn-wal-header");
    assert_eq!(receipt.typed_site(), StorageReceiptSite::WalOpenHeaderValidation);
    assert_eq!(receipt.cardinality(), 1);
    assert_eq!(receipt.plan().op_index(), 7);
    assert_eq!(
        receipt.observed(),
        &StorageReceiptObserved::WalHeader { artifact: "wal.ze".to_owned(), reason: 6 }
    );
    assert_eq!(controller.take_receipt(), None);
}

#[test]
fn a_torn_record_is_told_from_a_bad_checksum() {
    let corrupt = |error| WalRecoveryError::CorruptAt {
        offset: 12,
        reason: CorruptionReason::Record(error),
    };
    let torn = [RecordError::HeaderTruncated, RecordError::BodyTruncated, RecordError::LengthOverflow];
    for error in torn {
        let mut body = controller(StorageTestFault::TornWalBody);
        assert!(body.record_storage_wal_recovery_fault(&corrupt(error)));
        let receipt = body.take_receipt().expect("receipt");
        assert_eq!(receipt.typed_site(), StorageReceiptSite::WalOpenRecordValidation);
        let mut checksum = controller(StorageTestFault::TornWalChecksum);
        assert!(!checksum.record_storage_wal_recovery_fault(&corrupt(error)));
    }
    let mut body = controller(StorageTestFault::TornWalBody);
    assert!(!body.record_storage_wal_recovery_fault(&corrupt(RecordError::ChecksumMismatch)));
    assert!(!body.record_storage_wal_recovery_fault(&corrupt(RecordError::SequenceOrder)));
    let mut checksum = controller(StorageTestFault::TornWalChecksum);
    assert!(checksum.record_storage_wal_recovery_fault(&corrupt(RecordError::ChecksumMismatch)));
    assert_eq!(
        checksum.take_receipt().expect("receipt").observed(),
        &StorageReceiptObserved::WalRecord {
            artifact: "wal.ze".to_owned(),
            offset: 12,
            reason: CorruptionReason::Record(RecordError::ChecksumMismatch),
        }
    );
}

#[test]
fn a_wrong_object_is_recorded_by_its_last_path_component() {
    let mut manifest = controller(StorageTestFault::WrongManifestObject);
    assert!(!manifest.record_storage_manifest_format_fault(
        "/store/manifest.ze",
        FormatCheck::Magic,
        1,
        None
    ));
    assert!(manifest.record_storage_manifest_format_fault(
        "/store/manifest.ze",
        FormatCheck::Family,
        1,
        Some(2)
    ));
    assert_eq!(
        manifest.take_receipt().expect("receipt").observed(),
        &StorageReceiptObserved::Format {
            artifact: "manifest.ze".to_owned(),
            check: FormatCheck::Family,
            expected_family: Some(1),
            actual_family: Some(2),
            expected_id: None,
            actual_id: None,
        }
    );
    let mut family = controller(StorageTestFault::WrongSegmentObject);
    assert!(family.record_storage_segment_format_fault(
        "a/b.seg",
        FormatCheck::Family,
        4,
        Some(1),
        segment(8)
    ));
    assert_eq!(
        family.take_receipt().expect("receipt").typed_site(),
        StorageReceiptSite::SegmentOpenFamilyValidation
    );
    let mut identity = controller(StorageTestFault::WrongSegmentObject);
    assert!(identity.record_storage_segment_identity_fault("b.seg", segment(8), segment(9)));
    assert_eq!(
        identity.take_receipt().expect("receipt").observed(),
        &StorageReceiptObserved::Format {
            artifact: "b.seg".to_owned(),
            check: FormatCheck::ObjectIdentity,
            expected_family: None,
            actual_family: None,
            expected_id: Some(segment(8)),
            actual_id: Some(segment(9)),
        }
    );
}

#[test]
fn checksum_faults_reach_the_live_controllers_of_their_segment() {
    let mut registry = SegmentControllerRegistry::new();
    registry.register_storage_segment_controller("/a", segment(1), 0, &vec![]);
    registry.register_storage_segment_controller("/a", segment(2), 1, &vec![true]);
    registry.register_storage_segment_controller("/b", segment(1), 2, &vec![true, true]);
    registry.register_storage_segment_controller("/a", segment(1), 3, &vec![true, true, true]);
    assert_eq!(
        registry.matching("/a", segment(1), &vec![true, true, true, true]),
        vec![0, 3]
    );
    assert_eq!(
        registry.matching("/a", segment(1), &vec![false, true, true, true]),
        vec![3]
    );
    let mut region = controller(StorageTestFault::CorruptSegmentRegion);
    assert!(region.record_storage_segment_checksum_fault("1.seg", segment(1), 2, 3, 10, 11));
    assert_eq!(
        region.take_receipt().expect("receipt").observed(),
        &StorageReceiptObserved::SegmentChecksum {
            artifact: "1.seg".to_owned(),
            segment: segment(1),
            region_kind: 2,
            chunk: 3,
            expected_checksum: 10,
            actual_checksum: 11,
        }
    );
}

#[test]
fn a_snapshot_registers_its_segments_and_mismatches_reach_the_armed_watchers() {
    let meta = |value: u128| SegmentMeta {
        id: segment(value),
        scheme: 4,
        dims: 8,
        row_count: 1,
        epoch_id: None,
    };
    let mut registry = SegmentControllerRegistry::new();
    let live = vec![true, true, false];
    registry.register_snapshot("/a", &vec![meta(1), meta(2)], 0, &live);
    registry.register_snapshot("/a", &vec![meta(1)], 1, &live);
    assert_eq!(registry.entries.len(), 3);
    assert_eq!(registry.matching("/a", segment(1), &live), vec![0, 1]);
    assert_eq!(registry.matching("/a", segment(2), &live), vec![0]);

    let mut controllers = vec![
        controller(StorageTestFault::CorruptSegmentRegion),
        controller(StorageTestFault::TornWalBody),
        controller(StorageTestFault::CorruptSegmentRegion),
    ];
    registry.record_storage_segment_checksum_fault(
        &mut controllers,
        &live,
        "/a",
        "1.seg",
        segment(1),
        2,
        3,
        10,
        11,
    );
    assert_eq!(
        controllers[0].take_receipt().expect("receipt").site(),
        "SegmentRead.RegionChecksum"
    );
    assert!(controllers[1].take_receipt().is_none());
    assert!(controllers[2].take_receipt().is_none());
}

#[test]
fn a_post_commit_error_comes_once_and_only_from_the_log() {
    let facts = AppendFacts { encoded_len: 22, first_seq: 4, last_seq: 4 };
    let mut controller = controller(StorageTestFault::PostCommitError);
    assert_eq!(controller.after_append("/store/segment", facts), Ok(()));
    let error = controller.after_append("/store/wal.ze", facts).expect_err("scheduled");
    assert_eq!(error.message, "scheduled post-commit error after inner append");
    assert_eq!(controller.after_append("/store/wal.ze", facts), Ok(()));
    assert_eq!(
        controller.take_receipt().expect("receipt").observed(),
        &StorageReceiptObserved::WalAppend {
            artifact: "wal.ze".to_owned(),
            encoded_len: 22,
            first_seq: 4,
            last_seq: 4,
            inner_append_completed: true,
            caller_saw_error: true,
        }
    );
}

#[test]
fn a_crash_is_scheduled_on_one_side_of_the_manifest_rename() {
    let mut before = controller(StorageTestFault::ManifestPreRename);
    assert!(!before.at_rename("/s/other.tmp", "/s/manifest.ze", false, true));
    assert!(!before.at_rename("/s/manifest.ze.tmp", "/s/manifest.ze", true, true));
    assert!(before.at_rename("/s/manifest.ze.tmp", "/s/manifest.ze", false, true));
    assert!(!before.at_rename("/s/manifest.ze.tmp", "/s/manifest.ze", false, true));
    let mut after = controller(StorageTestFault::ManifestPostRename);
    assert!(!after.at_rename("/s/manifest.ze.tmp", "/s/manifest.ze", false, true));
    assert!(after.at_rename("/s/manifest.ze.tmp", "/s/manifest.ze", true, false));
    assert_eq!(
        after.take_receipt().expect("receipt").observed(),
        &StorageReceiptObserved::ManifestRename {
            temporary: "manifest.ze.tmp".to_owned(),
            committed: "manifest.ze".to_owned(),
            rename_performed: true,
            new_segment_final: false,
            directory_sync_returned: false,
        }
    );
}

#[test]
fn an_orphan_is_left_out_of_a_listing_or_kept_from_deletion_once() {
    let name = || "7.seg".to_owned();
    let listing = || vec!["/s/6.seg".to_owned(), "/s/7.seg".to_owned(), "/t/7.seg".to_owned()];
    let mut list = controller(StorageTestFault::ListOmission { file_name: name() });
    let mut paths = listing();
    assert_eq!(list.omit_from_listing(&mut paths), Some(1));
    assert_eq!(paths, vec!["/s/6.seg".to_owned(), "/t/7.seg".to_owned()]);
    let mut paths = listing();
    assert_eq!(list.omit_from_listing(&mut paths), None);
    assert_eq!(paths, listing());
    let mut delete = controller(StorageTestFault::DeleteOmission { file_name: name() });
    assert!(!delete.omit_deletion("/s/6.seg"));
    assert!(delete.omit_deletion("/s/7.seg"));
    assert!(!delete.omit_deletion("/s/7.seg"));
    assert_eq!(
        delete.take_receipt().expect("receipt").observed(),
        &StorageReceiptObserved::Omission { artifact: name(), deletion_observed: false }
    );
}

#[test]
fn a_cleanup_report_names_files_without_their_directory() {
    let mut controller = controller(StorageTestFault::ListOmission { file_name: String::new() });
    controller.record_cleanup_report(&OrphanCleanupReport {
        reclaimed_bytes: 12,
        deleted_paths: vec!["/s/1.seg".to_owned(), "/".to_owned()],
        retained_eligible_paths: vec!["/s/2.seg".to_owned()],
        directory_synced: true,
    });
    let report = controller.take_cleanup_report().expect("report");
    assert_eq!(report.reclaimed_bytes(), 12);
    assert_eq!(report.deleted_paths(), ["1.seg".to_owned()]);
    assert_eq!(report.retained_eligible_paths(), ["2.seg".to_owned()]);
    assert!(report.directory_synced());
    assert_eq!(controller.take_cleanup_report(), None);
}

#[test]
fn file_names_are_the_last_component() {
    let name = |path: &str| file_name(path).map(|chars| chars.iter().collect::<String>());
    for path in ["/a/b", "b", "/a/b/", "a/b/.", "a//b//", "", "/", ".", "..", "a/..", "/.", "./b"] {
        let expected = std::path::Path::new(path)
            .file_name()
            .map(|name| name.to_str().expect("text").to_owned());
        assert_eq!(name(path), expected, "{path:?}");
    }
    for (directory, file) in [("/a", "b"), ("/a/", "b"), ("", "b")] {
        let expected = std::path::Path::new(directory).join(file);
        assert_eq!(join(directory, file), expected.to_str().expect("text"));
    }
    assert_eq!(storage_artifact_name("/a/b.seg"), "b.seg");
    assert_eq!(storage_artifact_name("/a/.."), "/a/..");
}

#[test]
fn a_planned_segment_is_final_where_its_file_is_listed() {
    let listing = vec!["/s/a.seg".to_owned(), "/s/b.seg".to_owned()];
    assert!(storage_planned_segment_is_final(Some(&listing), Some("b.seg")));
    assert!(!storage_planned_segment_is_final(Some(&listing), Some("c.seg")));
    assert!(!storage_planned_segment_is_final(Some(&listing), None));
    assert!(!storage_planned_segment_is_final(None, Some("b.seg")));
}

#[test]
fn numbers_are_read_as_the_standard_library_reads_them() {
    let chars = |text: &str| text.chars().collect::<Vec<char>>();
    for text in ["0", "7", "+7", "007", "4294967295", "4294967296", "", "+", "-", "-1", "1a", " 1"] {
        match (text.parse::<u32>(), parse_u32(&chars(text))) {
            (Ok(expected), Ok(actual)) => assert_eq!(actual, expected, "{text:?}"),
            (Err(expected), Err(actual)) => {
                assert_eq!(actual.message(), expected.to_string(), "{text:?}")
            }
            other => panic!("{text:?}: {other:?}"),
        }
    }
    assert_eq!(parse_u32(&chars("x")), Err(NumberFault::InvalidDigit));
}

fn acknowledgment(fields: &[(&str, &str)]) -> String {
    let mut line = fields
        .iter()
        .map(|(key, value)| format!("{key}={value}"))
        .collect::<Vec<_>>()
        .join("|");
    line.push('\n');
    line
}

fn acknowledged() -> Vec<(&'static str, &'static str)> {
    vec![
        ("campaign", "storage-durability"),
        ("operation", "publication"),
        ("fault", "manifest-pre-rename-crash"),
        ("site", "ManifestCommit.BeforeRename"),
        ("op_index", "7"),
        ("cardinality", "1"),
        ("artifact", "manifest.ze"),
        ("temporary", "manifest.ze.tmp"),
        ("committed", "manifest.ze"),
        ("rename_performed", "false"),
        ("new_segment_final", "true"),
        ("directory_sync_returned", "false"),
    ]
}

fn with(place: usize, value: &'static str) -> Result<StorageFaultReceipt, String> {
    let mut fields = acknowledged();
    fields[place].1 = value;
    StorageFaultReceipt::from_manifest_abort_acknowledgment(&acknowledgment(&fields))
}

#[test]
fn an_acknowledged_receipt_is_the_one_that_was_stored() {
    for (fault, performed) in [
        (StorageTestFault::ManifestPreRename, false),
        (StorageTestFault::ManifestPostRename, true),
    ] {
        let mut controller = controller(fault);
        assert!(controller.at_rename("s/manifest.ze.tmp", "s/manifest.ze", performed, true));
        let receipt = controller.take_receipt().expect("receipt");
        assert_eq!(receipt.cardinality(), 1);
        let line = storage_manifest_abort_wire_receipt(&receipt).expect("line");
        assert_eq!(
            StorageFaultReceipt::from_manifest_abort_acknowledgment(&line),
            Ok(receipt)
        );
    }
    let mut other = controller(StorageTestFault::TornWalHeader);
    assert!(other.record_storage_wal_recovery_fault(&WalRecoveryError::InvalidHeader(1)));
    let receipt = other.take_receipt().expect("receipt");
    assert_eq!(storage_manifest_abort_wire_receipt(&receipt), None);
}

#[test]
fn an_acknowledgment_has_one_spelling() {
    let receipt = with(4, "+12").expect("receipt");
    assert_eq!(receipt.plan().op_index(), 12);
    assert_eq!(receipt.cardinality(), 1);
    assert_eq!(receipt.site(), "ManifestCommit.BeforeRename");
    let parse = |line: &str| {
        StorageFaultReceipt::from_manifest_abort_acknowledgment(line).expect_err("refused")
    };
    let newline = "manifest abort acknowledgment must end in exactly one newline";
    assert_eq!(parse("campaign=storage-durability"), newline);
    assert_eq!(parse("campaign=a\nb\n"), newline);
    assert_eq!(parse("a=b|c\n"), "manifest abort acknowledgment field lacks '=': c");
    assert_eq!(
        parse("campaign=storage-durability\n"),
        "manifest abort acknowledgment field inventory differs"
    );
    let mut swapped = acknowledged();
    swapped.swap(0, 1);
    assert_eq!(
        parse(&acknowledgment(&swapped)),
        "manifest abort acknowledgment field inventory differs"
    );
    assert_eq!(
        with(4, "x"),
        Err("manifest abort op index is invalid: invalid digit found in string".to_owned())
    );
    assert_eq!(
        with(5, "4294967296"),
        Err(
            "manifest abort cardinality is invalid: number too large to fit in target type"
                .to_owned()
        )
    );
    assert_eq!(
        with(9, "no"),
        Err("manifest abort rename_performed is not a bool: no".to_owned())
    );
    assert_eq!(
        with(10, "True"),
        Err("manifest abort new_segment_final is not a bool: True".to_owned())
    );
    assert_eq!(
        with(11, ""),
        Err("manifest abort directory_sync_returned is not a bool: ".to_owned())
    );
    let fixed = Err("manifest abort acknowledgment fixed facts differ".to_owned());
    for (place, value) in [
        (0, "other"),
        (1, "retry"),
        (5, "2"),
        (6, "wal.ze"),
        (7, "manifest.ze"),
        (8, "manifest.ze.tmp"),
        (10, "false"),
        (11, "true"),
    ] {
        assert_eq!(with(place, value), fixed);
    }
    assert_eq!(
        with(3, "ManifestCommit.AfterRename"),
        Err("manifest abort fault and production site differ".to_owned())
    );
    assert_eq!(
        with(9, "true"),
        Err("manifest abort rename result differs from production site".to_owned())
    );
}
