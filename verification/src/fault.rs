//! One-shot storage faults and the receipts that product checkpoints emit.

use crate::error::IoError;
use crate::error::IoErrorKind;
use crate::ids::SegmentId;
use crate::paths::file_name;
use crate::paths::file_name_spec;
use crate::text::same_text;
use crate::text::string_of;
use crate::wal_facts::AppendFacts;
use vstd::prelude::*;

verus! {

/// Name of the committed manifest.
pub const MANIFEST_FILE: &'static str = "manifest.ze";

/// Name of the manifest before its rename.
pub const MANIFEST_TEMP_FILE: &'static str = "manifest.ze.tmp";

/// Name of the write-ahead log.
pub const STORE_WAL_FILE: &'static str = "wal.ze";

/// One storage fault that a campaign can arm.
#[derive(Clone, Debug, PartialEq, Eq)]
pub enum StorageTestFault {
    TornWalHeader,
    TornWalBody,
    TornWalChecksum,
    PostCommitError,
    ManifestPreRename,
    ManifestPostRename,
    CorruptSegmentRegion,
    WrongManifestObject,
    WrongSegmentObject,
    ListOmission { file_name: String },
    DeleteOmission { file_name: String },
}

impl StorageTestFault {
    pub open spec fn spec_operation(self) -> Seq<char> {
        match self {
            StorageTestFault::TornWalHeader => "wal-prefix"@,
            StorageTestFault::TornWalBody => "wal-prefix"@,
            StorageTestFault::TornWalChecksum => "wal-prefix"@,
            StorageTestFault::PostCommitError => "retry"@,
            StorageTestFault::ManifestPreRename => "publication"@,
            StorageTestFault::ManifestPostRename => "publication"@,
            StorageTestFault::CorruptSegmentRegion => "format-check"@,
            StorageTestFault::WrongManifestObject => "format-check"@,
            StorageTestFault::WrongSegmentObject => "format-check"@,
            StorageTestFault::ListOmission { .. } => "orphan-cleanup"@,
            StorageTestFault::DeleteOmission { .. } => "orphan-cleanup"@,
        }
    }

    pub open spec fn spec_key(self) -> Seq<char> {
        match self {
            StorageTestFault::TornWalHeader => "torn-wal-header"@,
            StorageTestFault::TornWalBody => "torn-wal-body"@,
            StorageTestFault::TornWalChecksum => "torn-wal-checksum"@,
            StorageTestFault::PostCommitError => "post-commit-error"@,
            StorageTestFault::ManifestPreRename => "manifest-pre-rename-crash"@,
            StorageTestFault::ManifestPostRename => "manifest-post-rename-crash"@,
            StorageTestFault::CorruptSegmentRegion => "corrupt-segment-region"@,
            StorageTestFault::WrongManifestObject => "wrong-manifest-object"@,
            StorageTestFault::WrongSegmentObject => "wrong-segment-object"@,
            StorageTestFault::ListOmission { .. } => "list-delete-omission"@,
            StorageTestFault::DeleteOmission { .. } => "list-delete-omission"@,
        }
    }

    /// The operation that the fault targets.
    pub fn operation(&self) -> (text: &'static str)
        ensures
            text@ == self.spec_operation(),
    {
        match self {
            StorageTestFault::TornWalHeader
            | StorageTestFault::TornWalBody
            | StorageTestFault::TornWalChecksum => "wal-prefix",
            StorageTestFault::PostCommitError => "retry",
            StorageTestFault::ManifestPreRename
            | StorageTestFault::ManifestPostRename => "publication",
            StorageTestFault::CorruptSegmentRegion
            | StorageTestFault::WrongManifestObject
            | StorageTestFault::WrongSegmentObject => "format-check",
            StorageTestFault::ListOmission { .. }
            | StorageTestFault::DeleteOmission { .. } => "orphan-cleanup",
        }
    }

    /// The fault's name.
    pub fn key(&self) -> (text: &'static str)
        ensures
            text@ == self.spec_key(),
    {
        match self {
            StorageTestFault::TornWalHeader => "torn-wal-header",
            StorageTestFault::TornWalBody => "torn-wal-body",
            StorageTestFault::TornWalChecksum => "torn-wal-checksum",
            StorageTestFault::PostCommitError => "post-commit-error",
            StorageTestFault::ManifestPreRename => "manifest-pre-rename-crash",
            StorageTestFault::ManifestPostRename => "manifest-post-rename-crash",
            StorageTestFault::CorruptSegmentRegion => "corrupt-segment-region",
            StorageTestFault::WrongManifestObject => "wrong-manifest-object",
            StorageTestFault::WrongSegmentObject => "wrong-segment-object",
            StorageTestFault::ListOmission { .. }
            | StorageTestFault::DeleteOmission { .. } => "list-delete-omission",
        }
    }
}

/// Exact target facts supplied before one storage operation runs.
#[derive(Clone, Debug, PartialEq, Eq)]
pub struct StorageFaultPlan {
    pub op_index: u32,
    pub artifact: String,
    pub offset: Option<u64>,
    pub segment: Option<SegmentId>,
    pub region_kind: Option<u16>,
    pub chunk: Option<u32>,
}

impl StorageFaultPlan {
    /// Two plans with the same facts.
    pub open spec fn same(self, other: StorageFaultPlan) -> bool {
        &&& self.op_index == other.op_index
        &&& self.artifact@ == other.artifact@
        &&& self.offset == other.offset
        &&& self.segment == other.segment
        &&& self.region_kind == other.region_kind
        &&& self.chunk == other.chunk
    }

    /// An exact artifact plan for one operation index.
    pub fn new(op_index: u32, artifact: &str) -> (plan: StorageFaultPlan)
        ensures
            plan.op_index == op_index,
            plan.artifact@ == artifact@,
            plan.offset is None,
            plan.segment is None,
            plan.region_kind is None,
            plan.chunk is None,
    {
        StorageFaultPlan {
            op_index,
            artifact: artifact.to_owned(),
            offset: None,
            segment: None,
            region_kind: None,
            chunk: None,
        }
    }

    /// Pins the exact byte offset.
    pub fn with_offset(self, offset: u64) -> (plan: StorageFaultPlan)
        ensures
            plan == (StorageFaultPlan { offset: Some(offset), ..self }),
    {
        let mut plan = self;
        plan.offset = Some(offset);
        plan
    }

    /// Pins the exact segment, region kind and checksum chunk.
    pub fn with_segment_region(
        self,
        segment: SegmentId,
        region_kind: u16,
        chunk: u32,
    ) -> (plan: StorageFaultPlan)
        ensures
            plan == (StorageFaultPlan {
                segment: Some(segment),
                region_kind: Some(region_kind),
                chunk: Some(chunk),
                ..self
            }),
    {
        let mut plan = self;
        plan.segment = Some(segment);
        plan.region_kind = Some(region_kind);
        plan.chunk = Some(chunk);
        plan
    }

    /// Pins the exact newly published segment for a manifest checkpoint.
    pub fn with_segment(self, segment: SegmentId) -> (plan: StorageFaultPlan)
        ensures
            plan == (StorageFaultPlan { segment: Some(segment), ..self }),
    {
        let mut plan = self;
        plan.segment = Some(segment);
        plan
    }

    /// Operation index in the generated program.
    pub fn op_index(&self) -> (value: u32)
        ensures
            value == self.op_index,
    {
        self.op_index
    }

    /// Planned artifact.
    pub fn artifact(&self) -> (value: &str)
        ensures
            value@ == self.artifact@,
    {
        self.artifact.as_str()
    }

    /// Planned byte offset, where there is one.
    pub fn offset(&self) -> (value: Option<u64>)
        ensures
            value == self.offset,
    {
        self.offset
    }

    /// Planned segment, where there is one.
    pub fn segment(&self) -> (value: Option<SegmentId>)
        ensures
            value == self.segment,
    {
        self.segment
    }

    /// Planned region kind, where there is one.
    pub fn region_kind(&self) -> (value: Option<u16>)
        ensures
            value == self.region_kind,
    {
        self.region_kind
    }

    /// Planned checksum chunk, where there is one.
    pub fn chunk(&self) -> (value: Option<u32>)
        ensures
            value == self.chunk,
    {
        self.chunk
    }

    fn duplicate(&self) -> (plan: StorageFaultPlan)
        ensures
            plan.same(*self),
    {
        StorageFaultPlan {
            op_index: self.op_index,
            artifact: self.artifact.clone(),
            offset: self.offset,
            segment: self.segment,
            region_kind: self.region_kind,
            chunk: self.chunk,
        }
    }
}

/// Typed production checkpoint that consumed a storage fault.
#[derive(Clone, Copy, Debug, PartialEq, Eq, Structural)]
pub enum StorageReceiptSite {
    WalOpenHeaderValidation,
    WalOpenRecordValidation,
    WalOpenRecordChecksum,
    WalCommitAppendAfterInnerSuccess,
    ManifestCommitBeforeRename,
    ManifestCommitAfterRename,
    SegmentReadRegionChecksum,
    ManifestOpenFamilyValidation,
    SegmentOpenFamilyValidation,
    SegmentOpenObjectIdentity,
    OrphanCleanupList,
    OrphanCleanupDelete,
}

impl StorageReceiptSite {
    pub open spec fn spec_key(self) -> Seq<char> {
        match self {
            StorageReceiptSite::WalOpenHeaderValidation => "WalOpen.HeaderValidation"@,
            StorageReceiptSite::WalOpenRecordValidation => "WalOpen.RecordValidation"@,
            StorageReceiptSite::WalOpenRecordChecksum => "WalOpen.RecordChecksum"@,
            StorageReceiptSite::WalCommitAppendAfterInnerSuccess =>
                "WalCommit.AppendAfterInnerSuccess"@,
            StorageReceiptSite::ManifestCommitBeforeRename => "ManifestCommit.BeforeRename"@,
            StorageReceiptSite::ManifestCommitAfterRename => "ManifestCommit.AfterRename"@,
            StorageReceiptSite::SegmentReadRegionChecksum => "SegmentRead.RegionChecksum"@,
            StorageReceiptSite::ManifestOpenFamilyValidation => "ManifestOpen.FamilyValidation"@,
            StorageReceiptSite::SegmentOpenFamilyValidation => "SegmentOpen.FamilyValidation"@,
            StorageReceiptSite::SegmentOpenObjectIdentity => "SegmentOpen.ObjectIdentity"@,
            StorageReceiptSite::OrphanCleanupList => "OrphanCleanup.List"@,
            StorageReceiptSite::OrphanCleanupDelete => "OrphanCleanup.Delete"@,
        }
    }

    /// The checkpoint's name.
    pub fn key(self) -> (text: &'static str)
        ensures
            text@ == self.spec_key(),
    {
        match self {
            StorageReceiptSite::WalOpenHeaderValidation => "WalOpen.HeaderValidation",
            StorageReceiptSite::WalOpenRecordValidation => "WalOpen.RecordValidation",
            StorageReceiptSite::WalOpenRecordChecksum => "WalOpen.RecordChecksum",
            StorageReceiptSite::WalCommitAppendAfterInnerSuccess => {
                "WalCommit.AppendAfterInnerSuccess"
            },
            StorageReceiptSite::ManifestCommitBeforeRename => "ManifestCommit.BeforeRename",
            StorageReceiptSite::ManifestCommitAfterRename => "ManifestCommit.AfterRename",
            StorageReceiptSite::SegmentReadRegionChecksum => "SegmentRead.RegionChecksum",
            StorageReceiptSite::ManifestOpenFamilyValidation => "ManifestOpen.FamilyValidation",
            StorageReceiptSite::SegmentOpenFamilyValidation => "SegmentOpen.FamilyValidation",
            StorageReceiptSite::SegmentOpenObjectIdentity => "SegmentOpen.ObjectIdentity",
            StorageReceiptSite::OrphanCleanupList => "OrphanCleanup.List",
            StorageReceiptSite::OrphanCleanupDelete => "OrphanCleanup.Delete",
        }
    }
}

/// Why one log record does not decode.
#[derive(Clone, Copy, Debug, PartialEq, Eq, Structural)]
pub enum RecordError {
    HeaderTruncated,
    BodyTruncated,
    LengthOverflow,
    ChecksumMismatch,
    SequenceOrder,
}

/// Why replay stopped at an offset.
#[derive(Clone, Copy, Debug, PartialEq, Eq, Structural)]
pub enum CorruptionReason {
    Record(RecordError),
    Tail,
}

/// Why the log could not be recovered.
#[derive(Clone, Copy, Debug, PartialEq, Eq, Structural)]
pub enum WalRecoveryError {
    InvalidHeader(u16),
    CorruptAt { offset: u64, reason: CorruptionReason },
    Unreadable,
}

/// Which check of an artifact's frame failed.
#[derive(Clone, Copy, Debug, PartialEq, Eq, Structural)]
pub enum FormatCheck {
    Magic,
    Family,
    Version,
    Checksum,
    ObjectIdentity,
}

/// Exact facts observed at the production checkpoint.
#[derive(Clone, Debug, PartialEq, Eq)]
pub enum StorageReceiptObserved {
    WalHeader { artifact: String, reason: u16 },
    WalRecord { artifact: String, offset: u64, reason: CorruptionReason },
    WalAppend {
        artifact: String,
        encoded_len: u64,
        first_seq: u64,
        last_seq: u64,
        inner_append_completed: bool,
        caller_saw_error: bool,
    },
    ManifestRename {
        temporary: String,
        committed: String,
        rename_performed: bool,
        new_segment_final: bool,
        directory_sync_returned: bool,
    },
    SegmentChecksum {
        artifact: String,
        segment: SegmentId,
        region_kind: u16,
        chunk: u32,
        expected_checksum: u64,
        actual_checksum: u64,
    },
    Format {
        artifact: String,
        check: FormatCheck,
        expected_family: Option<u16>,
        actual_family: Option<u16>,
        expected_id: Option<SegmentId>,
        actual_id: Option<SegmentId>,
    },
    Omission { artifact: String, deletion_observed: bool },
}

/// One fact-only typed storage receipt.
#[derive(Clone, Debug, PartialEq, Eq)]
pub struct StorageFaultReceipt {
    pub operation: &'static str,
    pub fault: &'static str,
    pub site: StorageReceiptSite,
    pub plan: StorageFaultPlan,
    pub observed: StorageReceiptObserved,
    pub cardinality: u32,
}

impl StorageFaultReceipt {
    /// The campaign that every receipt belongs to.
    pub fn campaign(&self) -> (text: &'static str)
        ensures
            text@ == "storage-durability"@,
    {
        "storage-durability"
    }

    /// The operation that the fault targeted.
    pub fn operation(&self) -> (text: &'static str)
        ensures
            text == self.operation,
    {
        self.operation
    }

    /// The fault's name.
    pub fn fault(&self) -> (text: &'static str)
        ensures
            text == self.fault,
    {
        self.fault
    }

    /// The checkpoint's name.
    pub fn site(&self) -> (text: &'static str)
        ensures
            text@ == self.site.spec_key(),
    {
        self.site.key()
    }

    /// The checkpoint.
    pub fn typed_site(&self) -> (site: StorageReceiptSite)
        ensures
            site == self.site,
    {
        self.site
    }

    /// How many faults the receipt stands for.
    pub fn cardinality(&self) -> (value: u32)
        ensures
            value == self.cardinality,
    {
        self.cardinality
    }

    /// The plan that was armed.
    pub fn plan(&self) -> (plan: &StorageFaultPlan)
        ensures
            *plan == self.plan,
    {
        &self.plan
    }

    /// The facts that the checkpoint saw.
    pub fn observed(&self) -> (observed: &StorageReceiptObserved)
        ensures
            *observed == self.observed,
    {
        &self.observed
    }
}

/// Result of an orphan cleanup, paths as the filesystem names them.
#[derive(Clone, Debug, PartialEq, Eq)]
pub struct OrphanCleanupReport {
    pub reclaimed_bytes: u64,
    pub deleted_paths: Vec<String>,
    pub retained_eligible_paths: Vec<String>,
    pub directory_synced: bool,
}

/// Result of an orphan cleanup, paths reduced to their file names.
#[derive(Clone, Debug, PartialEq, Eq)]
pub struct StorageCleanupReport {
    pub reclaimed_bytes: u64,
    pub deleted_paths: Vec<String>,
    pub retained_eligible_paths: Vec<String>,
    pub directory_synced: bool,
}

impl StorageCleanupReport {
    /// Exact bytes removed from the filesystem.
    pub fn reclaimed_bytes(&self) -> (value: u64)
        ensures
            value == self.reclaimed_bytes,
    {
        self.reclaimed_bytes
    }

    /// File names confirmed absent after deletion.
    pub fn deleted_paths(&self) -> (paths: &[String])
        ensures
            paths@ == self.deleted_paths@,
    {
        self.deleted_paths.as_slice()
    }

    /// Eligible file names whose deletion was omitted.
    pub fn retained_eligible_paths(&self) -> (paths: &[String])
        ensures
            paths@ == self.retained_eligible_paths@,
    {
        self.retained_eligible_paths.as_slice()
    }

    /// Whether the cleanup synchronised the directory.
    pub fn directory_synced(&self) -> (value: bool)
        ensures
            value == self.directory_synced,
    {
        self.directory_synced
    }
}

/// The file names of `paths`, in order; a path without one is passed over.
pub open spec fn names_of(paths: Seq<String>) -> Seq<Seq<char>>
    decreases paths.len(),
{
    if paths.len() == 0 {
        Seq::empty()
    } else {
        match file_name_spec(paths.last()@) {
            Some(name) => names_of(paths.drop_last()).push(name),
            None => names_of(paths.drop_last()),
        }
    }
}

/// The texts of a list of strings.
pub open spec fn string_views(strings: Seq<String>) -> Seq<Seq<char>> {
    strings.map_values(|text: String| text@)
}

fn normalize(paths: &Vec<String>) -> (names: Vec<String>)
    ensures
        string_views(names@) == names_of(paths@),
{
    let mut names: Vec<String> = Vec::new();
    let mut at: usize = 0;
    assert(string_views(names@) == names_of(paths@.take(0)));
    while at < paths.len()
        invariant
            at <= paths.len(),
            string_views(names@) == names_of(paths@.take(at as int)),
        decreases paths.len() - at,
    {
        let ghost prefix = paths@.take(at + 1);
        assert(prefix.drop_last() == paths@.take(at as int));
        assert(prefix.last() == paths@[at as int]);
        let ghost before = string_views(names@);
        match file_name(paths[at].as_str()) {
            Some(name) => {
                names.push(string_of(&name));
                assert(string_views(names@) == before.push(name@));
            },
            None => {},
        }
        at = at + 1;
    }
    assert(paths@.take(at as int) == paths@);
    names
}

/// The last component of an artifact's path, or the path itself where it has
/// none.
pub open spec fn artifact_name_spec(artifact: Seq<char>) -> Seq<char> {
    match file_name_spec(artifact) {
        Some(name) => name,
        None => artifact,
    }
}

/// The last component of an artifact's path, or the path itself where it has
/// none.
pub fn storage_artifact_name(artifact: &str) -> (name: String)
    ensures
        name@ == artifact_name_spec(artifact@),
{
    match file_name(artifact) {
        Some(chars) => string_of(&chars),
        None => artifact.to_owned(),
    }
}

/// Whether `path` names the file `name`.
pub open spec fn names_file(path: Seq<char>, name: Seq<char>) -> bool {
    file_name_spec(path) == Some(name)
}

fn path_names(path: &str, name: &str) -> (result: bool)
    ensures
        result == names_file(path@, name@),
{
    match file_name(path) {
        Some(chars) => same_text(&chars, name),
        None => false,
    }
}

/// Whether a listing holds a path that names the file `name`.
pub open spec fn lists_file(paths: Seq<String>, name: Seq<char>) -> bool {
    exists|i: int| 0 <= i < paths.len() && names_file(#[trigger] paths[i]@, name)
}

/// Whether a listing holds the planned segment's final file.
pub fn storage_planned_segment_is_final(
    listing: Option<&Vec<String>>,
    planned: Option<&str>,
) -> (result: bool)
    ensures
        result == match (planned, listing) {
            (Some(name), Some(paths)) => lists_file(paths@, name@),
            _ => false,
        },
{
    match (planned, listing) {
        (Some(name), Some(paths)) => {
            let mut at: usize = 0;
            while at < paths.len()
                invariant
                    at <= paths.len(),
                    planned == Some(name),
                    listing == Some(paths),
                    forall|i: int| 0 <= i < at ==> !names_file(#[trigger] paths@[i]@, name@),
                decreases paths.len() - at,
            {
                if path_names(paths[at].as_str(), name) {
                    assert(names_file(paths@[at as int]@, name@));
                    assert(lists_file(paths@, name@));
                    return true;
                }
                at = at + 1;
            }
            false
        },
        _ => false,
    }
}

/// Arms one storage fault and receives its production receipt.
#[derive(Debug)]
pub struct StorageFaultController {
    fault: StorageTestFault,
    plan: StorageFaultPlan,
    consumed: bool,
    receipt: Option<StorageFaultReceipt>,
    cleanup_report: Option<StorageCleanupReport>,
}

impl StorageFaultController {
    #[verifier::type_invariant]
    spec fn well_formed(self) -> bool {
        self.receipt matches Some(receipt) ==> self.consumed && receipt.cardinality == 1
    }

    /// The fault that was armed.
    pub closed spec fn spec_fault(self) -> StorageTestFault {
        self.fault
    }

    /// The plan that was armed.
    pub closed spec fn spec_plan(self) -> StorageFaultPlan {
        self.plan
    }

    /// Whether the fault has been consumed.
    pub closed spec fn spec_consumed(self) -> bool {
        self.consumed
    }

    /// The receipt that has been emitted and not yet taken.
    pub closed spec fn spec_receipt(self) -> Option<StorageFaultReceipt> {
        self.receipt
    }

    /// The cleanup report that has been recorded and not yet taken.
    pub closed spec fn spec_cleanup(self) -> Option<StorageCleanupReport> {
        self.cleanup_report
    }

    /// Everything but the receipt and whether the fault has been consumed.
    pub open spec fn same_setup(self, other: StorageFaultController) -> bool {
        &&& self.spec_fault() == other.spec_fault()
        &&& self.spec_plan() == other.spec_plan()
        &&& self.spec_cleanup() == other.spec_cleanup()
    }

    /// What the emission of one receipt changes.
    pub open spec fn emitted(
        before: StorageFaultController,
        after: StorageFaultController,
        site: StorageReceiptSite,
        observed: StorageReceiptObserved,
    ) -> bool {
        &&& after.same_setup(before)
        &&& after.spec_consumed()
        &&& after.spec_receipt() matches Some(receipt) && {
            &&& receipt.operation@ == before.spec_fault().spec_operation()
            &&& receipt.fault@ == before.spec_fault().spec_key()
            &&& receipt.site == site
            &&& receipt.plan.same(before.spec_plan())
            &&& receipt.observed == observed
            &&& receipt.cardinality == 1
        }
    }

    /// Arms one controller.
    pub fn new(fault: StorageTestFault, plan: StorageFaultPlan) -> (controller: Self)
        ensures
            controller.spec_fault() == fault,
            controller.spec_plan() == plan,
            !controller.spec_consumed(),
            controller.spec_receipt() is None,
            controller.spec_cleanup() is None,
    {
        StorageFaultController { fault, plan, consumed: false, receipt: None, cleanup_report: None }
    }

    /// Takes the single receipt; one that there is to take has a cardinality of
    /// one.
    pub fn take_receipt(&mut self) -> (receipt: Option<StorageFaultReceipt>)
        ensures
            receipt == old(self).spec_receipt(),
            receipt matches Some(taken) ==> taken.cardinality == 1,
            final(self).spec_receipt() is None,
            final(self).same_setup(*old(self)),
            final(self).spec_consumed() == old(self).spec_consumed(),
    {
        proof {
            use_type_invariant(&*self);
        }
        let mut receipt = None;
        std::mem::swap(&mut receipt, &mut self.receipt);
        receipt
    }

    /// Takes the result of the most recent cleanup.
    pub fn take_cleanup_report(&mut self) -> (report: Option<StorageCleanupReport>)
        ensures
            report == old(self).spec_cleanup(),
            final(self).spec_cleanup() is None,
            final(self).spec_fault() == old(self).spec_fault(),
            final(self).spec_plan() == old(self).spec_plan(),
            final(self).spec_receipt() == old(self).spec_receipt(),
            final(self).spec_consumed() == old(self).spec_consumed(),
    {
        proof {
            use_type_invariant(&*self);
        }
        let mut report = None;
        std::mem::swap(&mut report, &mut self.cleanup_report);
        report
    }

    /// Records the result of a cleanup under file names.
    pub fn record_cleanup_report(&mut self, report: &OrphanCleanupReport)
        ensures
            final(self).spec_cleanup() matches Some(recorded) && {
                &&& recorded.reclaimed_bytes == report.reclaimed_bytes
                &&& recorded.directory_synced == report.directory_synced
                &&& string_views(recorded.deleted_paths@) == names_of(report.deleted_paths@)
                &&& string_views(recorded.retained_eligible_paths@) == names_of(
                    report.retained_eligible_paths@,
                )
            },
            final(self).spec_fault() == old(self).spec_fault(),
            final(self).spec_plan() == old(self).spec_plan(),
            final(self).spec_receipt() == old(self).spec_receipt(),
            final(self).spec_consumed() == old(self).spec_consumed(),
    {
        proof {
            use_type_invariant(&*self);
        }
        self.cleanup_report =
        Some(
            StorageCleanupReport {
                reclaimed_bytes: report.reclaimed_bytes,
                deleted_paths: normalize(&report.deleted_paths),
                retained_eligible_paths: normalize(&report.retained_eligible_paths),
                directory_synced: report.directory_synced,
            },
        );
    }

    /// The fault, while it has not been consumed.
    pub fn armed_fault(&self) -> (fault: Option<&StorageTestFault>)
        ensures
            fault == if self.spec_consumed() {
                None
            } else {
                Some(&self.spec_fault())
            },
    {
        if self.consumed {
            None
        } else {
            Some(&self.fault)
        }
    }

    /// The planned segment.
    pub fn planned_segment(&self) -> (segment: Option<SegmentId>)
        ensures
            segment == self.spec_plan().segment,
    {
        self.plan.segment
    }

    /// The receipt that waits to be taken.
    pub fn pending_receipt(&self) -> (receipt: &Option<StorageFaultReceipt>)
        ensures
            *receipt == self.spec_receipt(),
            *receipt matches Some(pending) ==> self.spec_consumed() && pending.cardinality == 1,
    {
        proof {
            use_type_invariant(self);
        }
        &self.receipt
    }

    /// Emits the single receipt of this controller, unless the fault has been
    /// consumed before.
    pub fn emit(&mut self, site: StorageReceiptSite, observed: StorageReceiptObserved) -> (first:
        bool)
        ensures
            first == !old(self).spec_consumed(),
            first ==> Self::emitted(*old(self), *final(self), site, observed),
            !first ==> *final(self) == *old(self),
    {
        proof {
            use_type_invariant(&*self);
        }
        if self.consumed {
            return false;
        }
        let receipt = StorageFaultReceipt {
            operation: self.fault.operation(),
            fault: self.fault.key(),
            site,
            plan: self.plan.duplicate(),
            observed,
            cardinality: 1,
        };
        self.consumed = true;
        self.receipt = Some(receipt);
        true
    }

    /// Records a recovery failure that the armed log fault explains.
    pub fn record_storage_wal_recovery_fault(&mut self, error: &WalRecoveryError) -> (recorded:
        bool)
        ensures
            recorded == (!old(self).spec_consumed() && Self::explains_recovery(
                old(self).spec_fault(),
                *error,
            )),
            !recorded ==> *final(self) == *old(self),
            recorded ==> exists|observed: StorageReceiptObserved|
                #![trigger Self::emitted(*old(self), *final(self), Self::recovery_site(old(self).spec_fault()), observed)]
                Self::emitted(
                    *old(self),
                    *final(self),
                    Self::recovery_site(old(self).spec_fault()),
                    observed,
                ) && Self::recovery_observed(*error, observed),
    {
        match (self.armed_fault(), error) {
            (Some(StorageTestFault::TornWalHeader), WalRecoveryError::InvalidHeader(reason)) => {
                let observed = StorageReceiptObserved::WalHeader {
                    artifact: STORE_WAL_FILE.to_owned(),
                    reason: *reason,
                };
                let ghost seen = observed;
                let first = self.emit(StorageReceiptSite::WalOpenHeaderValidation, observed);
                assert(Self::recovery_observed(*error, seen));
                first
            },
            (
                Some(StorageTestFault::TornWalBody),
                WalRecoveryError::CorruptAt { offset, reason: CorruptionReason::Record(record) },
            ) => match record {
                RecordError::HeaderTruncated
                | RecordError::BodyTruncated
                | RecordError::LengthOverflow => {
                    let observed = wal_record_observed(*offset, CorruptionReason::Record(*record));
                    let ghost seen = observed;
                    let first = self.emit(StorageReceiptSite::WalOpenRecordValidation, observed);
                    assert(Self::recovery_observed(*error, seen));
                    first
                },
                _ => false,
            },
            (
                Some(StorageTestFault::TornWalChecksum),
                WalRecoveryError::CorruptAt { offset, reason: CorruptionReason::Record(record) },
            ) => match record {
                RecordError::ChecksumMismatch => {
                    let observed = wal_record_observed(*offset, CorruptionReason::Record(*record));
                    let ghost seen = observed;
                    let first = self.emit(StorageReceiptSite::WalOpenRecordChecksum, observed);
                    assert(Self::recovery_observed(*error, seen));
                    first
                },
                _ => false,
            },
            _ => false,
        }
    }

    /// Which recovery failures each log fault explains.
    pub open spec fn explains_recovery(fault: StorageTestFault, error: WalRecoveryError) -> bool {
        match (fault, error) {
            (StorageTestFault::TornWalHeader, WalRecoveryError::InvalidHeader(_)) => true,
            (
                StorageTestFault::TornWalBody,
                WalRecoveryError::CorruptAt { reason: CorruptionReason::Record(record), .. },
            ) => record == RecordError::HeaderTruncated || record == RecordError::BodyTruncated
                || record == RecordError::LengthOverflow,
            (
                StorageTestFault::TornWalChecksum,
                WalRecoveryError::CorruptAt { reason: CorruptionReason::Record(record), .. },
            ) => record == RecordError::ChecksumMismatch,
            _ => false,
        }
    }

    /// The checkpoint at which each log fault is recorded.
    pub open spec fn recovery_site(fault: StorageTestFault) -> StorageReceiptSite {
        match fault {
            StorageTestFault::TornWalHeader => StorageReceiptSite::WalOpenHeaderValidation,
            StorageTestFault::TornWalBody => StorageReceiptSite::WalOpenRecordValidation,
            _ => StorageReceiptSite::WalOpenRecordChecksum,
        }
    }

    /// The facts recorded of a recovery failure.
    pub open spec fn recovery_observed(
        error: WalRecoveryError,
        observed: StorageReceiptObserved,
    ) -> bool {
        match error {
            WalRecoveryError::InvalidHeader(reason) =>
                observed matches StorageReceiptObserved::WalHeader { artifact, reason: seen }
                && artifact@ == STORE_WAL_FILE@ && seen == reason,
            WalRecoveryError::CorruptAt { offset, reason } =>
                observed matches StorageReceiptObserved::WalRecord {
                artifact,
                offset: at,
                reason: seen,
            } && artifact@ == STORE_WAL_FILE@ && at == offset && seen == reason,
            WalRecoveryError::Unreadable => false,
        }
    }

    /// The facts recorded of a format failure.
    pub open spec fn format_observed(
        observed: StorageReceiptObserved,
        artifact: Seq<char>,
        check: FormatCheck,
        expected_family: Option<u16>,
        actual_family: Option<u16>,
        expected_id: Option<SegmentId>,
        actual_id: Option<SegmentId>,
    ) -> bool {
        observed matches StorageReceiptObserved::Format {
            artifact: name,
            check: seen,
            expected_family: ef,
            actual_family: af,
            expected_id: ei,
            actual_id: ai,
        } && name@ == artifact_name_spec(artifact) && seen == check && ef == expected_family && af
            == actual_family && ei == expected_id && ai == actual_id
    }

    /// Records a manifest whose family is wrong, where that fault is armed.
    /// `manifest_family` is the family that a manifest carries.
    pub fn record_storage_manifest_format_fault(
        &mut self,
        artifact: &str,
        check: FormatCheck,
        manifest_family: u16,
        actual_family: Option<u16>,
    ) -> (recorded: bool)
        ensures
            recorded == (!old(self).spec_consumed()
                && old(self).spec_fault() is WrongManifestObject && check == FormatCheck::Family),
            !recorded ==> *final(self) == *old(self),
            recorded ==> exists|observed: StorageReceiptObserved|
                #![trigger Self::emitted(*old(self), *final(self), StorageReceiptSite::ManifestOpenFamilyValidation, observed)]
                Self::emitted(
                    *old(self),
                    *final(self),
                    StorageReceiptSite::ManifestOpenFamilyValidation,
                    observed,
                ) && Self::format_observed(
                    observed,
                    artifact@,
                    check,
                    Some(manifest_family),
                    actual_family,
                    None,
                    None,
                ),
    {
        match self.armed_fault() {
            Some(StorageTestFault::WrongManifestObject) => {},
            _ => {
                return false;
            },
        }
        if check != FormatCheck::Family {
            return false;
        }
        let observed = StorageReceiptObserved::Format {
            artifact: storage_artifact_name(artifact),
            check,
            expected_family: Some(manifest_family),
            actual_family,
            expected_id: None,
            actual_id: None,
        };
        let ghost seen = observed;
        let first = self.emit(StorageReceiptSite::ManifestOpenFamilyValidation, observed);
        assert(Self::format_observed(
            seen,
            artifact@,
            check,
            Some(manifest_family),
            actual_family,
            None,
            None,
        ));
        first
    }

    /// Records a segment whose family is wrong, where that fault is armed.
    /// `segment_family` is the family that a segment carries.
    pub fn record_storage_segment_format_fault(
        &mut self,
        artifact: &str,
        check: FormatCheck,
        segment_family: u16,
        actual_family: Option<u16>,
        expected_id: SegmentId,
    ) -> (recorded: bool)
        ensures
            recorded == (!old(self).spec_consumed() && old(self).spec_fault() is WrongSegmentObject
                && check == FormatCheck::Family),
            !recorded ==> *final(self) == *old(self),
            recorded ==> exists|observed: StorageReceiptObserved|
                #![trigger Self::emitted(*old(self), *final(self), StorageReceiptSite::SegmentOpenFamilyValidation, observed)]
                Self::emitted(
                    *old(self),
                    *final(self),
                    StorageReceiptSite::SegmentOpenFamilyValidation,
                    observed,
                ) && Self::format_observed(
                    observed,
                    artifact@,
                    check,
                    Some(segment_family),
                    actual_family,
                    Some(expected_id),
                    None,
                ),
    {
        match self.armed_fault() {
            Some(StorageTestFault::WrongSegmentObject) => {},
            _ => {
                return false;
            },
        }
        if check != FormatCheck::Family {
            return false;
        }
        let observed = StorageReceiptObserved::Format {
            artifact: storage_artifact_name(artifact),
            check,
            expected_family: Some(segment_family),
            actual_family,
            expected_id: Some(expected_id),
            actual_id: None,
        };
        let ghost seen = observed;
        let first = self.emit(StorageReceiptSite::SegmentOpenFamilyValidation, observed);
        assert(Self::format_observed(
            seen,
            artifact@,
            check,
            Some(segment_family),
            actual_family,
            Some(expected_id),
            None,
        ));
        first
    }

    /// Records a segment whose identity is wrong, where that fault is armed.
    pub fn record_storage_segment_identity_fault(
        &mut self,
        artifact: &str,
        expected: SegmentId,
        actual: SegmentId,
    ) -> (recorded: bool)
        ensures
            recorded == (!old(self).spec_consumed()
                && old(self).spec_fault() is WrongSegmentObject),
            !recorded ==> *final(self) == *old(self),
            recorded ==> exists|observed: StorageReceiptObserved|
                #![trigger Self::emitted(*old(self), *final(self), StorageReceiptSite::SegmentOpenObjectIdentity, observed)]
                Self::emitted(
                    *old(self),
                    *final(self),
                    StorageReceiptSite::SegmentOpenObjectIdentity,
                    observed,
                ) && Self::format_observed(
                    observed,
                    artifact@,
                    FormatCheck::ObjectIdentity,
                    None,
                    None,
                    Some(expected),
                    Some(actual),
                ),
    {
        match self.armed_fault() {
            Some(StorageTestFault::WrongSegmentObject) => {},
            _ => {
                return false;
            },
        }
        let observed = StorageReceiptObserved::Format {
            artifact: storage_artifact_name(artifact),
            check: FormatCheck::ObjectIdentity,
            expected_family: None,
            actual_family: None,
            expected_id: Some(expected),
            actual_id: Some(actual),
        };
        let ghost seen = observed;
        let first = self.emit(StorageReceiptSite::SegmentOpenObjectIdentity, observed);
        assert(Self::format_observed(
            seen,
            artifact@,
            FormatCheck::ObjectIdentity,
            None,
            None,
            Some(expected),
            Some(actual),
        ));
        first
    }

    /// The facts recorded of a checksum mismatch.
    pub open spec fn checksum_observed(
        observed: StorageReceiptObserved,
        segment_file: Seq<char>,
        segment: SegmentId,
        region_kind: u16,
        chunk: u32,
        expected: u64,
        actual: u64,
    ) -> bool {
        observed matches StorageReceiptObserved::SegmentChecksum {
            artifact,
            segment: id,
            region_kind: kind,
            chunk: at,
            expected_checksum: e,
            actual_checksum: a,
        } && artifact@ == segment_file && id == segment && kind == region_kind && at == chunk && e
            == expected && a == actual
    }

    /// Records a region checksum mismatch, where that fault is armed.
    pub fn record_storage_segment_checksum_fault(
        &mut self,
        segment_file: &str,
        segment: SegmentId,
        region_kind: u16,
        chunk: u32,
        expected: u64,
        actual: u64,
    ) -> (recorded: bool)
        ensures
            recorded == (!old(self).spec_consumed()
                && old(self).spec_fault() is CorruptSegmentRegion),
            !recorded ==> *final(self) == *old(self),
            recorded ==> exists|observed: StorageReceiptObserved|
                #![trigger Self::emitted(*old(self), *final(self), StorageReceiptSite::SegmentReadRegionChecksum, observed)]
                Self::emitted(
                    *old(self),
                    *final(self),
                    StorageReceiptSite::SegmentReadRegionChecksum,
                    observed,
                ) && Self::checksum_observed(
                    observed,
                    segment_file@,
                    segment,
                    region_kind,
                    chunk,
                    expected,
                    actual,
                ),
    {
        match self.armed_fault() {
            Some(StorageTestFault::CorruptSegmentRegion) => {},
            _ => {
                return false;
            },
        }
        let observed = StorageReceiptObserved::SegmentChecksum {
            artifact: segment_file.to_owned(),
            segment,
            region_kind,
            chunk,
            expected_checksum: expected,
            actual_checksum: actual,
        };
        let ghost seen = observed;
        let first = self.emit(StorageReceiptSite::SegmentReadRegionChecksum, observed);
        assert(Self::checksum_observed(
            seen,
            segment_file@,
            segment,
            region_kind,
            chunk,
            expected,
            actual,
        ));
        first
    }

    /// The facts recorded of a completed append whose caller sees an error.
    pub open spec fn append_observed(observed: StorageReceiptObserved, facts: AppendFacts) -> bool {
        observed matches StorageReceiptObserved::WalAppend {
            artifact,
            encoded_len,
            first_seq,
            last_seq,
            inner_append_completed,
            caller_saw_error,
        } && artifact@ == STORE_WAL_FILE@ && encoded_len == facts.encoded_len && first_seq
            == facts.first_seq && last_seq == facts.last_seq && inner_append_completed
            && caller_saw_error
    }

    /// Decides what the caller of a completed append sees: an error exactly
    /// where the post-commit fault is armed and the file is the log.
    pub fn after_append(&mut self, path: &str, facts: AppendFacts) -> (result: Result<
        (),
        IoError,
    >)
        ensures
            result is Err <==> !old(self).spec_consumed() && old(self).spec_fault() is PostCommitError
                && names_file(path@, STORE_WAL_FILE@),
            result matches Err(error) ==> {
                &&& error.kind == IoErrorKind::Other
                &&& error.message@ == "scheduled post-commit error after inner append"@
                &&& exists|observed: StorageReceiptObserved|
                    #![trigger Self::emitted(*old(self), *final(self), StorageReceiptSite::WalCommitAppendAfterInnerSuccess, observed)]
                    Self::emitted(
                        *old(self),
                        *final(self),
                        StorageReceiptSite::WalCommitAppendAfterInnerSuccess,
                        observed,
                    ) && Self::append_observed(observed, facts)
            },
            result is Ok ==> *final(self) == *old(self),
    {
        match self.armed_fault() {
            Some(StorageTestFault::PostCommitError) => {},
            _ => {
                return Ok(());
            },
        }
        if !path_names(path, STORE_WAL_FILE) {
            return Ok(());
        }
        let observed = StorageReceiptObserved::WalAppend {
            artifact: STORE_WAL_FILE.to_owned(),
            encoded_len: facts.encoded_len,
            first_seq: facts.first_seq,
            last_seq: facts.last_seq,
            inner_append_completed: true,
            caller_saw_error: true,
        };
        let ghost seen = observed;
        let first = self.emit(StorageReceiptSite::WalCommitAppendAfterInnerSuccess, observed);
        assert(Self::append_observed(seen, facts));
        assert(first);
        Err(IoError::other("scheduled post-commit error after inner append"))
    }

    /// The facts recorded of a manifest rename.
    pub open spec fn rename_observed(
        observed: StorageReceiptObserved,
        performed: bool,
        segment_final: bool,
    ) -> bool {
        observed matches StorageReceiptObserved::ManifestRename {
            temporary,
            committed,
            rename_performed,
            new_segment_final,
            directory_sync_returned,
        } && temporary@ == MANIFEST_TEMP_FILE@ && committed@ == MANIFEST_FILE@ && rename_performed
            == performed && new_segment_final == segment_final && !directory_sync_returned
    }

    /// Whether a rename publishes the manifest.
    pub open spec fn is_manifest_rename(from: Seq<char>, to: Seq<char>) -> bool {
        names_file(from, MANIFEST_TEMP_FILE@) && names_file(to, MANIFEST_FILE@)
    }

    /// The fault that stops at one side of the manifest rename.
    pub open spec fn rename_fault(fault: StorageTestFault, performed: bool) -> bool {
        if performed {
            fault is ManifestPostRename
        } else {
            fault is ManifestPreRename
        }
    }

    /// The checkpoint at one side of the manifest rename.
    pub open spec fn rename_site(performed: bool) -> StorageReceiptSite {
        if performed {
            StorageReceiptSite::ManifestCommitAfterRename
        } else {
            StorageReceiptSite::ManifestCommitBeforeRename
        }
    }

    /// Decides whether the process stops at one side of the manifest rename,
    /// and emits the receipt where it does.
    pub fn at_rename(
        &mut self,
        from: &str,
        to: &str,
        performed: bool,
        segment_final: bool,
    ) -> (abort: bool)
        ensures
            abort == (!old(self).spec_consumed() && Self::rename_fault(
                old(self).spec_fault(),
                performed,
            ) && Self::is_manifest_rename(from@, to@)),
            !abort ==> *final(self) == *old(self),
            abort ==> exists|observed: StorageReceiptObserved|
                #![trigger Self::emitted(*old(self), *final(self), Self::rename_site(performed), observed)]
                Self::emitted(
                    *old(self),
                    *final(self),
                    Self::rename_site(performed),
                    observed,
                ) && Self::rename_observed(observed, performed, segment_final),
    {
        if !path_names(from, MANIFEST_TEMP_FILE) || !path_names(to, MANIFEST_FILE) {
            return false;
        }
        match (self.armed_fault(), performed) {
            (Some(StorageTestFault::ManifestPreRename), false) => {},
            (Some(StorageTestFault::ManifestPostRename), true) => {},
            _ => {
                return false;
            },
        }
        let observed = StorageReceiptObserved::ManifestRename {
            temporary: MANIFEST_TEMP_FILE.to_owned(),
            committed: MANIFEST_FILE.to_owned(),
            rename_performed: performed,
            new_segment_final: segment_final,
            directory_sync_returned: false,
        };
        let ghost seen = observed;
        let site = if performed {
            StorageReceiptSite::ManifestCommitAfterRename
        } else {
            StorageReceiptSite::ManifestCommitBeforeRename
        };
        let first = self.emit(site, observed);
        assert(Self::rename_observed(seen, performed, segment_final));
        first
    }

    /// The facts recorded of an omission.
    pub open spec fn omission_observed(
        observed: StorageReceiptObserved,
        omitted: Seq<char>,
    ) -> bool {
        observed matches StorageReceiptObserved::Omission { artifact, deletion_observed }
            && artifact@ == omitted && !deletion_observed
    }

    /// The name whose listing is omitted, while that fault is armed.
    pub open spec fn list_target(self) -> Option<Seq<char>> {
        match self.spec_fault() {
            StorageTestFault::ListOmission { file_name } => if self.spec_consumed() {
                None
            } else {
                Some(file_name@)
            },
            _ => None,
        }
    }

    /// The name whose deletion is omitted, while that fault is armed.
    pub open spec fn delete_target(self) -> Option<Seq<char>> {
        match self.spec_fault() {
            StorageTestFault::DeleteOmission { file_name } => if self.spec_consumed() {
                None
            } else {
                Some(file_name@)
            },
            _ => None,
        }
    }

    /// Removes the first path with the omitted name from a listing.
    pub fn omit_from_listing(&mut self, paths: &mut Vec<String>) -> (omitted: Option<usize>)
        ensures
            match omitted {
                Some(at) => {
                    &&& at < old(paths)@.len()
                    &&& old(self).list_target() matches Some(name) && {
                        &&& names_file(old(paths)@[at as int]@, name)
                        &&& forall|i: int|
                            0 <= i < at ==> !names_file(#[trigger] old(paths)@[i]@, name)
                        &&& exists|observed: StorageReceiptObserved|
                            #![trigger Self::emitted(*old(self), *final(self), StorageReceiptSite::OrphanCleanupList, observed)]
                            Self::emitted(
                                *old(self),
                                *final(self),
                                StorageReceiptSite::OrphanCleanupList,
                                observed,
                            ) && Self::omission_observed(observed, name)
                    }
                    &&& final(paths)@ == old(paths)@.remove(at as int)
                },
                None => {
                    &&& *final(self) == *old(self)
                    &&& final(paths)@ == old(paths)@
                    &&& old(self).list_target() matches Some(name) ==> forall|i: int|
                        0 <= i < old(paths)@.len() ==> !names_file(
                            #[trigger] old(paths)@[i]@,
                            name,
                        )
                },
            },
    {
        let name: String = match self.armed_fault() {
            Some(StorageTestFault::ListOmission { file_name }) => file_name.clone(),
            _ => {
                return None;
            },
        };
        let mut at: usize = 0;
        while at < paths.len()
            invariant
                at <= paths.len(),
                paths@ == old(paths)@,
                *self == *old(self),
                self.list_target() == Some(name@),
                forall|i: int| 0 <= i < at ==> !names_file(#[trigger] paths@[i]@, name@),
            decreases paths.len() - at,
        {
            if path_names(paths[at].as_str(), name.as_str()) {
                let _ = paths.remove(at);
                let observed = StorageReceiptObserved::Omission {
                    artifact: name,
                    deletion_observed: false,
                };
                let ghost seen = observed;
                let first = self.emit(StorageReceiptSite::OrphanCleanupList, observed);
                assert(first);
                assert(Self::omission_observed(seen, name@));
                return Some(at);
            }
            at = at + 1;
        }
        None
    }

    /// Decides whether the deletion of `path` is omitted.
    pub fn omit_deletion(&mut self, path: &str) -> (omitted: bool)
        ensures
            omitted == (old(self).delete_target() matches Some(name) && names_file(path@, name)),
            !omitted ==> *final(self) == *old(self),
            omitted ==> exists|observed: StorageReceiptObserved|
                #![trigger Self::emitted(*old(self), *final(self), StorageReceiptSite::OrphanCleanupDelete, observed)]
                Self::emitted(
                    *old(self),
                    *final(self),
                    StorageReceiptSite::OrphanCleanupDelete,
                    observed,
                ) && Self::omission_observed(observed, old(self).delete_target()->0),
    {
        let name: String = match self.armed_fault() {
            Some(StorageTestFault::DeleteOmission { file_name }) => file_name.clone(),
            _ => {
                return false;
            },
        };
        if !path_names(path, name.as_str()) {
            return false;
        }
        let observed = StorageReceiptObserved::Omission {
            artifact: name,
            deletion_observed: false,
        };
        let ghost seen = observed;
        let first = self.emit(StorageReceiptSite::OrphanCleanupDelete, observed);
        assert(Self::omission_observed(seen, old(self).delete_target()->0));
        first
    }
}

fn wal_record_observed(offset: u64, reason: CorruptionReason) -> (observed: StorageReceiptObserved)
    ensures
        observed matches StorageReceiptObserved::WalRecord { artifact, offset: at, reason: seen }
            && artifact@ == STORE_WAL_FILE@ && at == offset && seen == reason,
{
    StorageReceiptObserved::WalRecord { artifact: STORE_WAL_FILE.to_owned(), offset, reason }
}

/// A controller emits at most once: whatever the second checkpoint is, it
/// changes nothing.
pub proof fn lemma_one_receipt_per_controller(
    before: StorageFaultController,
    after: StorageFaultController,
    site: StorageReceiptSite,
    observed: StorageReceiptObserved,
)
    requires
        StorageFaultController::emitted(before, after, site, observed),
    ensures
        after.spec_consumed(),
        after.list_target() is None,
        after.delete_target() is None,
        after.spec_receipt() matches Some(receipt) && receipt.cardinality == 1,
{
}

} // verus!
