//! Typed failures of the engine, their classification and their texts.

use crate::ids::DocId;
use crate::ids::EpochIdentity;
use crate::ids::EpochMismatch;
use crate::ids::Revision;
use crate::ids::SegmentId;
use crate::text::bool_word;
use crate::text::decimal;
use crate::text::push_bool;
use crate::text::push_decimal;
use vstd::prelude::*;

verus! {

/// Class of an operating-system failure.
#[derive(Clone, Copy, Debug, PartialEq, Eq, Structural)]
pub enum IoErrorKind {
    NotFound,
    PermissionDenied,
    AlreadyExists,
    WouldBlock,
    InvalidData,
    Other,
}

/// An operating-system failure: its class and its text.
#[derive(Clone, Debug, PartialEq, Eq)]
pub struct IoError {
    pub kind: IoErrorKind,
    pub message: String,
}

impl IoError {
    /// A failure without a class of its own.
    pub fn other(message: &str) -> (error: IoError)
        ensures
            error.kind == IoErrorKind::Other,
            error.message@ == message@,
    {
        IoError { kind: IoErrorKind::Other, message: message.to_owned() }
    }
}

/// The writer lock could not be opened or acquired.
#[derive(Clone, Debug, PartialEq, Eq)]
pub enum StoreLockError {
    Io { path: String, source: IoError },
}

/// A durability mode that no policy supports.
#[derive(Clone, Copy, Debug, PartialEq, Eq, Structural)]
pub enum DurabilityPolicyError {
    AttachedNotYetSupported,
}

/// A committed manifest was rejected.
#[derive(Clone, Debug, PartialEq, Eq)]
pub enum ManifestError {
    /// The manifest names a log position beyond the durable log.
    AheadOfLog { snapshot: u64, durable: u64 },
    /// Any other rejection, by its text.
    Other(String),
}

/// A geometric rule that a segment or a traversal broke.
#[derive(Clone, Debug, PartialEq, Eq)]
pub enum Geometry {
    /// A metadata row names a segment that the snapshot does not hold.
    MetadataRowSegmentAbsent(SegmentId),
    /// A metadata row lies behind the segment's rows.
    MetadataRowOutside { row: u32, rows: u32 },
    /// A schema column is missing from the segment's columns.
    MetadataColumnMissing(u32),
    /// A metadata evaluation names a segment that the snapshot does not hold.
    MetadataSourceSegmentAbsent(SegmentId),
    /// No norm enclosure exists for this quantisation scheme.
    NormEnclosureScheme(u16),
    /// The norm enclosure has no finite ceiling.
    NormEnclosureNotFinite,
    /// Search does not support this quantisation scheme.
    SealedScheme(u16),
    /// Exact rows are missing.
    ExactScoresUnavailable { segment: SegmentId, expected: u32, available: u32 },
    /// A traversal distance has no single-precision value.
    DistanceNotRepresentable(u32),
    /// A traversal ran out of candidates before it met its live target.
    TraversalExhausted { candidates: usize, retained: usize, expected: usize },
    /// Cancellation by hop count was armed on a deadline control.
    HopCancellationWithoutToken,
    /// A prepared vector context belongs to another query or epoch.
    ForeignPreparedVector,
    /// A scratch pool of no capacity was asked for.
    ScratchPoolCapacityZero,
    /// A scratch allocation differs from its exact reservation.
    ScratchCapacity { actual: u64, requested: u64 },
    /// More scratches are out than can be counted.
    ScratchCheckoutOverflow,
    /// A rule of another subsystem, by its text.
    Text(String),
}

/// A sealed segment was rejected.
#[derive(Clone, Debug, PartialEq, Eq)]
pub enum SegmentError {
    Geometry(Geometry),
    Columns(String),
    Other(String),
}

/// A vector cannot be quantised.
#[derive(Clone, Copy, Debug, PartialEq, Eq, Structural)]
pub enum QuantError {
    EmptyVector,
    DimensionTooLarge { actual: usize, maximum: usize },
    NonFinite { index: usize },
}

/// Exact rescoring was rejected.
#[derive(Clone, Copy, Debug, PartialEq, Eq, Structural)]
pub enum RescoreError {
    ZeroDimension,
    ZeroK,
    ZeroOversample,
    ZeroCandidateLimit,
    ArithmeticOverflow,
    QueryDimension { expected: usize, actual: usize },
    CoarseScoreCount { expected: usize, actual: usize },
    CandidateRowCount { expected: usize, actual: usize },
    RowDataLength { dimension: usize, actual: usize },
    CandidateRowOutOfRange { position: usize, row_index: usize, row_count: usize },
    NonFiniteCoarseScore { index: usize },
    NonFiniteExactScore { row_index: usize },
    InsufficientCandidates { required: usize, available: usize },
    CandidateLimitExceeded { requested: usize, maximum: usize },
}

/// A scan was rejected or stopped.
#[derive(Clone, Copy, Debug, PartialEq, Eq, Structural)]
pub enum ScanError {
    ZeroDimension,
    ArithmeticOverflow,
    WorkerPanicked,
    RowDataLength { dimension: usize, actual: usize },
    NonFiniteScore { row_id: usize },
    Quant(QuantError),
    Rescore(RescoreError),
    Cancelled { partial: bool },
    Timeout { partial: bool },
    ReadCancelled { partial: bool },
}

/// A traversal width was rejected.
#[derive(Clone, Copy, Debug, PartialEq, Eq, Structural)]
pub enum AdaptiveEfError {
    ExplicitBelowK { k: usize, ef: usize },
}

/// No graph profile can be selected for the published epoch.
#[derive(Clone, Copy, Debug, PartialEq, Eq, Structural)]
pub enum GraphProfileError {
    EpochUnstamped,
    EpochNotRegistered { epoch: EpochIdentity },
    UnsupportedMetric { epoch: EpochIdentity },
}

/// A graph traversal was rejected or stopped.
#[derive(Clone, Debug, PartialEq, Eq)]
pub enum GraphSearchError {
    Geometry(Geometry),
    AdaptiveEf(AdaptiveEfError),
    Profile(GraphProfileError),
    ExactRescoreUnavailable(Geometry),
    Rescore(RescoreError),
    Scan(ScanError),
    Cancelled { partial: bool },
    Timeout { partial: bool },
    ReadCancelled { partial: bool },
}

/// Typed user columns of a store, in declaration order.
#[derive(Clone, Debug, PartialEq, Eq)]
pub struct Schema {
    pub columns: Vec<u32>,
    pub label: String,
}

/// An open, lifecycle, or close operation was rejected.
#[derive(Clone, Debug, PartialEq, Eq)]
pub enum StoreError {
    Io { path: String, source: IoError },
    NotDirectory { path: String },
    StoreBusy { path: String },
    Lock(StoreLockError),
    Durability(DurabilityPolicyError),
    Kernel(String),
    Manifest(ManifestError),
    Tokenizer(String),
    EpochMismatch(EpochMismatch),
    EpochUndeclared,
    EpochUnstamped,
    SchemaMismatch { persisted: Schema, declared: Schema },
    Segment(SegmentError),
    GraphUnavailable { segment_id: SegmentId },
    Wal(String),
    WalRecovery(String),
    WalRecord { seq: u64, source: String },
    WalMutation { seq: u64, op: u16, source: String },
    WalRevisionOrder { seq: u64, doc_id: DocId, current: Revision, attempted: Revision },
    UnsupportedWalMutation { seq: u64, op: u16 },
    WalVector { seq: u64, source: QuantError },
    WalWrite(String),
    WalRetire(String),
    Statistics { component: &'static str, source: IoError },
    BudgetExceeded { needed: u64, budget: u64, component: &'static str },
    AllocationFailed { needed: u64, component: &'static str },
    DimensionMismatch { expected: usize, actual: usize },
    ActiveRowOverflow,
    EmptyActiveSegment,
    SealCancelled,
    ReadOnly,
    SealedTombstoneRecoveryRequired,
    ForeignPreparedSegment,
    GenerationOverflow,
    ConcurrentActiveMutation { expected_generation: u64, actual_generation: u64 },
    PartitionBytesOverflow,
    PurgeRecovery { detail: String },
    Closing,
    Closed,
    ReadCancelled,
    BackgroundStart { source: IoError },
    BackgroundHandshake,
    BackgroundThreadPanicked,
    QueryPoolStart { source: IoError },
    QueryPoolHandshake,
    QueryPoolThreadPanicked,
    QueryPoolCapacity { source: String },
    Synchronization { component: &'static str },
}

/// Coarse classification of a [`StoreError`], stable for hosts that map engine
/// failures onto their own status codes.
#[derive(Clone, Copy, Debug, PartialEq, Eq, Hash, Structural)]
pub enum StoreErrorKind {
    Io,
    InvalidArgument,
    StoreBusy,
    Unsupported,
    Corrupt,
    BudgetExceeded,
    OutOfMemory,
    DimensionMismatch,
    EpochMismatch,
    EpochUndeclared,
    EpochUnstamped,
    Internal,
    EmptyBatch,
    Cancelled,
    ReadOnly,
    Closing,
    Closed,
    Panic,
    Synchronization,
}

/// Typed failure from a store-admitted query.
#[derive(Clone, Debug, PartialEq, Eq)]
pub enum QueryError {
    /// The deadline expired.
    Timeout { partial: bool },
    /// The caller cancelled the token.
    Cancelled { partial: bool },
    /// Store close cancelled an already admitted query.
    ReadCancelled { partial: bool },
    /// Store admission or lifecycle failed.
    Store(StoreError),
    /// Scan validation or scoring failed.
    Scan(ScanError),
    /// Graph validation or traversal failed.
    Graph(GraphSearchError),
}

pub open spec fn overflow_error() -> QueryError {
    QueryError::Scan(ScanError::ArithmeticOverflow)
}

impl StoreLockError {
    pub open spec fn spec_message(self) -> Seq<char> {
        match self {
            StoreLockError::Io { path, source } => "store lock "@ + path@ + ": "@ + source.message@,
        }
    }

    /// The failure in words.
    pub fn message(&self) -> (text: String)
        ensures
            text@ == self.spec_message(),
    {
        match self {
            StoreLockError::Io { path, source } => {
                let mut out = "store lock ".to_owned();
                out.append(path.as_str());
                out.append(": ");
                out.append(source.message.as_str());
                out
            },
        }
    }
}

impl DurabilityPolicyError {
    pub open spec fn spec_message(self) -> Seq<char> {
        "attached durability mode is not yet supported"@
    }

    /// The failure in words.
    pub fn message(&self) -> (text: String)
        ensures
            text@ == self.spec_message(),
    {
        "attached durability mode is not yet supported".to_owned()
    }
}

impl ManifestError {
    /// The words of each failure; one of the manifest's own checks reads as
    /// `inner`.
    pub open spec fn spec_message(self, inner: Seq<char>) -> Seq<char> {
        match self {
            ManifestError::AheadOfLog { .. } => inner,
            ManifestError::Other(text) => text@,
        }
    }

    /// The failure in words. `inner` is how the manifest layer words a check of
    /// its own.
    pub fn message(&self, inner: &str) -> (text: String)
        ensures
            text@ == self.spec_message(inner@),
    {
        match self {
            ManifestError::AheadOfLog { .. } => inner.to_owned(),
            ManifestError::Other(text) => text.clone(),
        }
    }
}

impl Geometry {
    pub open spec fn spec_message(self) -> Seq<char> {
        match self {
            Geometry::MetadataRowSegmentAbsent(id) => "public metadata row names absent segment "@
                + id.spec_label(),
            Geometry::MetadataRowOutside { row, rows } => "public metadata row "@ + decimal(
                row as nat,
            ) + " is outside "@ + decimal(rows as nat) + " rows"@,
            Geometry::MetadataColumnMissing(column) => "public metadata row is missing column "@
                + decimal(column as nat),
            Geometry::MetadataSourceSegmentAbsent(id) =>
                "metadata source evaluation names absent segment "@ + id.spec_label(),
            Geometry::NormEnclosureScheme(scheme) =>
                "vector norm enclosure does not support scheme "@ + decimal(scheme as nat),
            Geometry::NormEnclosureNotFinite =>
                "vector norm enclosure did not produce a finite squared-L2 ceiling"@,
            Geometry::SealedScheme(scheme) => "store search does not support sealed scheme "@
                + decimal(scheme as nat),
            Geometry::ExactScoresUnavailable { segment, expected, available } =>
                "exact scores unavailable for segment "@ + segment.spec_label() + ": expected "@
                + decimal(expected as nat) + " rows, got "@ + decimal(available as nat),
            Geometry::DistanceNotRepresentable(row) => "graph result distance for row "@ + decimal(
                row as nat,
            ) + " is not representable as f32"@,
            Geometry::TraversalExhausted { candidates, retained, expected } =>
                "graph traversal exhausted "@ + decimal(candidates as nat)
                + " candidates but retained "@ + decimal(retained as nat)
                + " live rows, expected "@ + decimal(expected as nat),
            Geometry::HopCancellationWithoutToken =>
                "test hop cancellation requires a Cancel query control"@,
            Geometry::ForeignPreparedVector =>
                "prepared vector context belongs to another query or epoch"@,
            Geometry::ScratchPoolCapacityZero => "graph scratch pool capacity is zero"@,
            Geometry::ScratchCapacity { actual, requested } => "scratch capacity is "@ + decimal(
                actual as nat,
            ) + " bytes, expected exact reservation "@ + decimal(requested as nat),
            Geometry::ScratchCheckoutOverflow => "graph scratch checkout count overflowed"@,
            Geometry::Text(text) => text@,
        }
    }

    /// The broken rule in words.
    pub fn message(&self) -> (text: String)
        ensures
            text@ == self.spec_message(),
    {
        match self {
            Geometry::MetadataRowSegmentAbsent(id) => {
                let mut out = "public metadata row names absent segment ".to_owned();
                id.push_label(&mut out);
                out
            },
            Geometry::MetadataRowOutside { row, rows } => {
                let mut out = "public metadata row ".to_owned();
                push_decimal(&mut out, *row as u128);
                out.append(" is outside ");
                push_decimal(&mut out, *rows as u128);
                out.append(" rows");
                out
            },
            Geometry::MetadataColumnMissing(column) => {
                let mut out = "public metadata row is missing column ".to_owned();
                push_decimal(&mut out, *column as u128);
                out
            },
            Geometry::MetadataSourceSegmentAbsent(id) => {
                let mut out = "metadata source evaluation names absent segment ".to_owned();
                id.push_label(&mut out);
                out
            },
            Geometry::NormEnclosureScheme(scheme) => {
                let mut out = "vector norm enclosure does not support scheme ".to_owned();
                push_decimal(&mut out, *scheme as u128);
                out
            },
            Geometry::NormEnclosureNotFinite => {
                "vector norm enclosure did not produce a finite squared-L2 ceiling".to_owned()
            },
            Geometry::SealedScheme(scheme) => {
                let mut out = "store search does not support sealed scheme ".to_owned();
                push_decimal(&mut out, *scheme as u128);
                out
            },
            Geometry::ExactScoresUnavailable { segment, expected, available } => {
                let mut out = "exact scores unavailable for segment ".to_owned();
                segment.push_label(&mut out);
                out.append(": expected ");
                push_decimal(&mut out, *expected as u128);
                out.append(" rows, got ");
                push_decimal(&mut out, *available as u128);
                out
            },
            Geometry::DistanceNotRepresentable(row) => {
                let mut out = "graph result distance for row ".to_owned();
                push_decimal(&mut out, *row as u128);
                out.append(" is not representable as f32");
                out
            },
            Geometry::TraversalExhausted { candidates, retained, expected } => {
                let mut out = "graph traversal exhausted ".to_owned();
                push_decimal(&mut out, *candidates as u128);
                out.append(" candidates but retained ");
                push_decimal(&mut out, *retained as u128);
                out.append(" live rows, expected ");
                push_decimal(&mut out, *expected as u128);
                out
            },
            Geometry::HopCancellationWithoutToken => {
                "test hop cancellation requires a Cancel query control".to_owned()
            },
            Geometry::ForeignPreparedVector => {
                "prepared vector context belongs to another query or epoch".to_owned()
            },
            Geometry::ScratchPoolCapacityZero => "graph scratch pool capacity is zero".to_owned(),
            Geometry::ScratchCapacity { actual, requested } => {
                let mut out = "scratch capacity is ".to_owned();
                push_decimal(&mut out, *actual as u128);
                out.append(" bytes, expected exact reservation ");
                push_decimal(&mut out, *requested as u128);
                out
            },
            Geometry::ScratchCheckoutOverflow => {
                "graph scratch checkout count overflowed".to_owned()
            },
            Geometry::Text(text) => text.clone(),
        }
    }
}

impl SegmentError {
    pub open spec fn spec_message(self) -> Seq<char> {
        match self {
            SegmentError::Geometry(geometry) => geometry.spec_message(),
            SegmentError::Columns(text) => text@,
            SegmentError::Other(text) => text@,
        }
    }

    /// The failure in words.
    pub fn message(&self) -> (text: String)
        ensures
            text@ == self.spec_message(),
    {
        match self {
            SegmentError::Geometry(geometry) => geometry.message(),
            SegmentError::Columns(text) => text.clone(),
            SegmentError::Other(text) => text.clone(),
        }
    }
}

fn prefixed(prefix: &str, rest: &str) -> (text: String)
    ensures
        text@ == prefix@ + rest@,
{
    let mut out = prefix.to_owned();
    out.append(rest);
    out
}

impl StoreError {
    /// The kind of each failure.
    pub open spec fn spec_kind(self) -> StoreErrorKind {
        match self {
            StoreError::Io { .. } => StoreErrorKind::Io,
            StoreError::Lock(_) => StoreErrorKind::Io,
            StoreError::Statistics { .. } => StoreErrorKind::Io,
            StoreError::BackgroundStart { .. } => StoreErrorKind::Io,
            StoreError::QueryPoolStart { .. } => StoreErrorKind::Io,
            StoreError::WalWrite(_) => StoreErrorKind::Io,
            StoreError::WalRetire(_) => StoreErrorKind::Io,
            StoreError::NotDirectory { .. } => StoreErrorKind::InvalidArgument,
            StoreError::Tokenizer(_) => StoreErrorKind::InvalidArgument,
            StoreError::SchemaMismatch { .. } => StoreErrorKind::InvalidArgument,
            StoreError::StoreBusy { .. } => StoreErrorKind::StoreBusy,
            StoreError::Durability(_) => StoreErrorKind::Unsupported,
            StoreError::Kernel(_) => StoreErrorKind::Unsupported,
            StoreError::GraphUnavailable { .. } => StoreErrorKind::Unsupported,
            StoreError::UnsupportedWalMutation { .. } => StoreErrorKind::Unsupported,
            StoreError::Manifest(_) => StoreErrorKind::Corrupt,
            StoreError::Segment(_) => StoreErrorKind::Corrupt,
            StoreError::Wal(_) => StoreErrorKind::Corrupt,
            StoreError::WalRecovery(_) => StoreErrorKind::Corrupt,
            StoreError::WalRecord { .. } => StoreErrorKind::Corrupt,
            StoreError::WalMutation { .. } => StoreErrorKind::Corrupt,
            StoreError::WalRevisionOrder { .. } => StoreErrorKind::Corrupt,
            StoreError::WalVector { .. } => StoreErrorKind::Corrupt,
            StoreError::PurgeRecovery { .. } => StoreErrorKind::Corrupt,
            StoreError::BudgetExceeded { .. } => StoreErrorKind::BudgetExceeded,
            StoreError::AllocationFailed { .. } => StoreErrorKind::OutOfMemory,
            StoreError::DimensionMismatch { .. } => StoreErrorKind::DimensionMismatch,
            StoreError::EpochMismatch(_) => StoreErrorKind::EpochMismatch,
            StoreError::EpochUndeclared => StoreErrorKind::EpochUndeclared,
            StoreError::EpochUnstamped => StoreErrorKind::EpochUnstamped,
            StoreError::ActiveRowOverflow => StoreErrorKind::Internal,
            StoreError::GenerationOverflow => StoreErrorKind::Internal,
            StoreError::ConcurrentActiveMutation { .. } => StoreErrorKind::Internal,
            StoreError::PartitionBytesOverflow => StoreErrorKind::Internal,
            StoreError::ForeignPreparedSegment => StoreErrorKind::Internal,
            StoreError::BackgroundHandshake => StoreErrorKind::Internal,
            StoreError::QueryPoolHandshake => StoreErrorKind::Internal,
            StoreError::QueryPoolCapacity { .. } => StoreErrorKind::Internal,
            StoreError::EmptyActiveSegment => StoreErrorKind::EmptyBatch,
            StoreError::SealCancelled => StoreErrorKind::Cancelled,
            StoreError::ReadCancelled => StoreErrorKind::Cancelled,
            StoreError::ReadOnly => StoreErrorKind::ReadOnly,
            StoreError::SealedTombstoneRecoveryRequired => StoreErrorKind::ReadOnly,
            StoreError::Closing => StoreErrorKind::Closing,
            StoreError::Closed => StoreErrorKind::Closed,
            StoreError::BackgroundThreadPanicked => StoreErrorKind::Panic,
            StoreError::QueryPoolThreadPanicked => StoreErrorKind::Panic,
            StoreError::Synchronization { .. } => StoreErrorKind::Synchronization,
        }
    }

    /// The words of each failure; a check of the manifest, a vector that cannot be
    /// quantized and a mismatch of epochs read as `inner`.
    pub open spec fn spec_message(self, inner: Seq<char>) -> Seq<char> {
        match self {
            StoreError::Io { path, source } => "store I/O "@ + path@ + ": "@ + source.message@,
            StoreError::NotDirectory { path } => "store path is not a directory: "@ + path@,
            StoreError::StoreBusy { path } => "store already has a writer: "@ + path@,
            StoreError::Lock(error) => error.spec_message(),
            StoreError::Durability(error) => error.spec_message(),
            StoreError::Kernel(text) => text@,
            StoreError::Manifest(error) => error.spec_message(inner),
            StoreError::Tokenizer(text) => "store tokenizer: "@ + text@,
            StoreError::EpochMismatch(_) => inner,
            StoreError::EpochUndeclared => "store epoch is persisted but the caller declared none"@,
            StoreError::EpochUnstamped =>
                "store manifest predates epoch identity and cannot adopt a declaration"@,
            StoreError::SchemaMismatch { persisted, declared } => "declared store schema "@
                + declared.label@ + " does not match persisted schema "@ + persisted.label@,
            StoreError::Segment(error) => error.spec_message(),
            StoreError::GraphUnavailable { segment_id } => "sealed segment "@
                + segment_id.spec_label() + " has no graph region"@,
            StoreError::Wal(text) => text@,
            StoreError::WalRecovery(text) => text@,
            StoreError::WalRecord { seq, source } => "WAL sequence "@ + decimal(seq as nat)
                + " retained record: "@ + source@,
            StoreError::WalMutation { seq, op, source } => "WAL sequence "@ + decimal(seq as nat)
                + " operation "@ + decimal(op as nat) + " payload: "@ + source@,
            StoreError::WalRevisionOrder { seq, doc_id, current, attempted } => "WAL sequence "@
                + decimal(seq as nat) + " document "@ + decimal(doc_id.value as nat)
                + " revision "@ + decimal(attempted.value as nat) + " does not follow "@ + decimal(
                current.value as nat,
            ),
            StoreError::UnsupportedWalMutation { seq, op } => "WAL sequence "@ + decimal(seq as nat)
                + " operation "@ + decimal(op as nat) + " has no active-segment recovery path"@,
            StoreError::WalVector { seq, .. } => "WAL sequence "@ + decimal(seq as nat)
                + " vector: "@ + inner,
            StoreError::WalWrite(text) => text@,
            StoreError::WalRetire(text) => text@,
            StoreError::Statistics { component, source } => "store statistics "@ + component@
                + ": "@ + source.message@,
            StoreError::BudgetExceeded { needed, budget, component } => "store "@ + component@
                + " allocation needs "@ + decimal(needed as nat) + " bytes, budget is "@ + decimal(
                budget as nat,
            ) + " bytes"@,
            StoreError::AllocationFailed { needed, component } => "store "@ + component@
                + " allocator rejected "@ + decimal(needed as nat) + " bytes"@,
            StoreError::DimensionMismatch { expected, actual } => "active vector dimension "@
                + decimal(actual as nat) + " does not match "@ + decimal(expected as nat),
            StoreError::ActiveRowOverflow => "active segment row or byte geometry overflow"@,
            StoreError::EmptyActiveSegment => "active segment is empty"@,
            StoreError::SealCancelled => "seal was cancelled before commit"@,
            StoreError::ReadOnly => "store handle is read-only"@,
            StoreError::SealedTombstoneRecoveryRequired =>
                "store requires writable sealed-tombstone recovery before reads are safe"@,
            StoreError::ForeignPreparedSegment => "prepared segment belongs to another store"@,
            StoreError::GenerationOverflow => "store snapshot generation overflow"@,
            StoreError::ConcurrentActiveMutation { expected_generation, actual_generation } =>
                "active generation changed from "@ + decimal(expected_generation as nat) + " to "@
                + decimal(actual_generation as nat) + " while preparing a commit"@,
            StoreError::PartitionBytesOverflow => "partition reclaimed-byte count overflow"@,
            StoreError::PurgeRecovery { detail } => "physical purge recovery failed: "@ + detail@,
            StoreError::Closing => "store is closing"@,
            StoreError::Closed => "store is closed"@,
            StoreError::ReadCancelled => "store close cancelled the admitted read"@,
            StoreError::BackgroundStart { source } => "store lifecycle thread could not start: "@
                + source.message@,
            StoreError::BackgroundHandshake => "store lifecycle thread startup handshake failed"@,
            StoreError::BackgroundThreadPanicked => "store lifecycle thread panicked"@,
            StoreError::QueryPoolStart { source } => "store query worker could not start: "@
                + source.message@,
            StoreError::QueryPoolHandshake => "store query worker startup handshake failed"@,
            StoreError::QueryPoolThreadPanicked => "store query worker panicked"@,
            StoreError::QueryPoolCapacity { source } => "store query worker capacity failed: "@
                + source@,
            StoreError::Synchronization { component } =>
                "store lifecycle synchronization poisoned: "@ + component@,
        }
    }

    /// The words of the failure underneath, where there is one.
    pub open spec fn spec_source(self, inner: Seq<char>) -> Option<Seq<char>> {
        match self {
            StoreError::Io { source, .. } => Some(source.message@),
            StoreError::Lock(error) => Some(error.spec_message()),
            StoreError::Durability(error) => Some(error.spec_message()),
            StoreError::Kernel(text) => Some(text@),
            StoreError::Manifest(error) => Some(error.spec_message(inner)),
            StoreError::Tokenizer(text) => Some(text@),
            StoreError::EpochMismatch(_) => Some(inner),
            StoreError::Segment(error) => Some(error.spec_message()),
            StoreError::Wal(text) => Some(text@),
            StoreError::WalRecovery(text) => Some(text@),
            StoreError::WalRecord { source, .. } => Some(source@),
            StoreError::WalMutation { source, .. } => Some(source@),
            StoreError::WalVector { .. } => Some(inner),
            StoreError::WalWrite(text) => Some(text@),
            StoreError::WalRetire(text) => Some(text@),
            StoreError::Statistics { source, .. } => Some(source.message@),
            StoreError::BackgroundStart { source } => Some(source.message@),
            StoreError::QueryPoolStart { source } => Some(source.message@),
            _ => None,
        }
    }

    /// Classifies this error; see [`StoreErrorKind`].
    pub fn kind(&self) -> (kind: StoreErrorKind)
        ensures
            kind == self.spec_kind(),
    {
        match self {
            StoreError::Io { .. }
            | StoreError::Lock(_)
            | StoreError::Statistics { .. }
            | StoreError::BackgroundStart { .. }
            | StoreError::QueryPoolStart { .. }
            | StoreError::WalWrite(_)
            | StoreError::WalRetire(_) => StoreErrorKind::Io,
            StoreError::NotDirectory { .. }
            | StoreError::Tokenizer(_)
            | StoreError::SchemaMismatch { .. } => StoreErrorKind::InvalidArgument,
            StoreError::StoreBusy { .. } => StoreErrorKind::StoreBusy,
            StoreError::Durability(_)
            | StoreError::Kernel(_)
            | StoreError::GraphUnavailable { .. }
            | StoreError::UnsupportedWalMutation { .. } => StoreErrorKind::Unsupported,
            StoreError::Manifest(_)
            | StoreError::Segment(_)
            | StoreError::Wal(_)
            | StoreError::WalRecovery(_)
            | StoreError::WalRecord { .. }
            | StoreError::WalMutation { .. }
            | StoreError::WalRevisionOrder { .. }
            | StoreError::WalVector { .. }
            | StoreError::PurgeRecovery { .. } => StoreErrorKind::Corrupt,
            StoreError::BudgetExceeded { .. } => StoreErrorKind::BudgetExceeded,
            StoreError::AllocationFailed { .. } => StoreErrorKind::OutOfMemory,
            StoreError::DimensionMismatch { .. } => StoreErrorKind::DimensionMismatch,
            StoreError::EpochMismatch(_) => StoreErrorKind::EpochMismatch,
            StoreError::EpochUndeclared => StoreErrorKind::EpochUndeclared,
            StoreError::EpochUnstamped => StoreErrorKind::EpochUnstamped,
            StoreError::ActiveRowOverflow
            | StoreError::GenerationOverflow
            | StoreError::ConcurrentActiveMutation { .. }
            | StoreError::PartitionBytesOverflow
            | StoreError::ForeignPreparedSegment
            | StoreError::BackgroundHandshake
            | StoreError::QueryPoolHandshake
            | StoreError::QueryPoolCapacity { .. } => StoreErrorKind::Internal,
            StoreError::EmptyActiveSegment => StoreErrorKind::EmptyBatch,
            StoreError::SealCancelled | StoreError::ReadCancelled => StoreErrorKind::Cancelled,
            StoreError::ReadOnly
            | StoreError::SealedTombstoneRecoveryRequired => StoreErrorKind::ReadOnly,
            StoreError::Closing => StoreErrorKind::Closing,
            StoreError::Closed => StoreErrorKind::Closed,
            StoreError::BackgroundThreadPanicked
            | StoreError::QueryPoolThreadPanicked => StoreErrorKind::Panic,
            StoreError::Synchronization { .. } => StoreErrorKind::Synchronization,
        }
    }

    /// The failure in words. `inner` is how the layer below words a manifest's
    /// own check, a vector that cannot be quantized or a mismatch of epochs; it is
    /// used for those alone.
    #[verifier::rlimit(40)]
    pub fn message(&self, inner: &str) -> (text: String)
        ensures
            text@ == self.spec_message(inner@),
    {
        match self {
            StoreError::Io { path, source } => {
                let mut out = "store I/O ".to_owned();
                out.append(path.as_str());
                out.append(": ");
                out.append(source.message.as_str());
                out
            },
            StoreError::NotDirectory { path } => prefixed(
                "store path is not a directory: ",
                path.as_str(),
            ),
            StoreError::StoreBusy { path } => prefixed(
                "store already has a writer: ",
                path.as_str(),
            ),
            StoreError::Lock(error) => error.message(),
            StoreError::Durability(error) => error.message(),
            StoreError::Kernel(text) => text.clone(),
            StoreError::Manifest(error) => error.message(inner),
            StoreError::Tokenizer(text) => prefixed("store tokenizer: ", text.as_str()),
            StoreError::EpochMismatch(_) => inner.to_owned(),
            StoreError::EpochUndeclared => {
                "store epoch is persisted but the caller declared none".to_owned()
            },
            StoreError::EpochUnstamped => {
                "store manifest predates epoch identity and cannot adopt a declaration".to_owned()
            },
            StoreError::SchemaMismatch { persisted, declared } => {
                let mut out = "declared store schema ".to_owned();
                out.append(declared.label.as_str());
                out.append(" does not match persisted schema ");
                out.append(persisted.label.as_str());
                out
            },
            StoreError::Segment(error) => error.message(),
            StoreError::GraphUnavailable { segment_id } => {
                let mut out = "sealed segment ".to_owned();
                segment_id.push_label(&mut out);
                out.append(" has no graph region");
                out
            },
            StoreError::Wal(text) => text.clone(),
            StoreError::WalRecovery(text) => text.clone(),
            StoreError::WalRecord { seq, source } => {
                let mut out = "WAL sequence ".to_owned();
                push_decimal(&mut out, *seq as u128);
                out.append(" retained record: ");
                out.append(source.as_str());
                out
            },
            StoreError::WalMutation { seq, op, source } => {
                let mut out = "WAL sequence ".to_owned();
                push_decimal(&mut out, *seq as u128);
                out.append(" operation ");
                push_decimal(&mut out, *op as u128);
                out.append(" payload: ");
                out.append(source.as_str());
                out
            },
            StoreError::WalRevisionOrder { seq, doc_id, current, attempted } => {
                let mut out = "WAL sequence ".to_owned();
                push_decimal(&mut out, *seq as u128);
                out.append(" document ");
                push_decimal(&mut out, doc_id.value);
                out.append(" revision ");
                push_decimal(&mut out, attempted.value as u128);
                out.append(" does not follow ");
                push_decimal(&mut out, current.value as u128);
                out
            },
            StoreError::UnsupportedWalMutation { seq, op } => {
                let mut out = "WAL sequence ".to_owned();
                push_decimal(&mut out, *seq as u128);
                out.append(" operation ");
                push_decimal(&mut out, *op as u128);
                out.append(" has no active-segment recovery path");
                out
            },
            StoreError::WalVector { seq, .. } => {
                let mut out = "WAL sequence ".to_owned();
                push_decimal(&mut out, *seq as u128);
                out.append(" vector: ");
                out.append(inner);
                out
            },
            StoreError::WalWrite(text) => text.clone(),
            StoreError::WalRetire(text) => text.clone(),
            StoreError::Statistics { component, source } => {
                let mut out = "store statistics ".to_owned();
                out.append(component);
                out.append(": ");
                out.append(source.message.as_str());
                out
            },
            StoreError::BudgetExceeded { needed, budget, component } => {
                let mut out = "store ".to_owned();
                out.append(component);
                out.append(" allocation needs ");
                push_decimal(&mut out, *needed as u128);
                out.append(" bytes, budget is ");
                push_decimal(&mut out, *budget as u128);
                out.append(" bytes");
                out
            },
            StoreError::AllocationFailed { needed, component } => {
                let mut out = "store ".to_owned();
                out.append(component);
                out.append(" allocator rejected ");
                push_decimal(&mut out, *needed as u128);
                out.append(" bytes");
                out
            },
            StoreError::DimensionMismatch { expected, actual } => {
                let mut out = "active vector dimension ".to_owned();
                push_decimal(&mut out, *actual as u128);
                out.append(" does not match ");
                push_decimal(&mut out, *expected as u128);
                out
            },
            StoreError::ActiveRowOverflow => {
                "active segment row or byte geometry overflow".to_owned()
            },
            StoreError::EmptyActiveSegment => "active segment is empty".to_owned(),
            StoreError::SealCancelled => "seal was cancelled before commit".to_owned(),
            StoreError::ReadOnly => "store handle is read-only".to_owned(),
            StoreError::SealedTombstoneRecoveryRequired => {
                "store requires writable sealed-tombstone recovery before reads are safe".to_owned()
            },
            StoreError::ForeignPreparedSegment => {
                "prepared segment belongs to another store".to_owned()
            },
            StoreError::GenerationOverflow => "store snapshot generation overflow".to_owned(),
            StoreError::ConcurrentActiveMutation { expected_generation, actual_generation } => {
                let mut out = "active generation changed from ".to_owned();
                push_decimal(&mut out, *expected_generation as u128);
                out.append(" to ");
                push_decimal(&mut out, *actual_generation as u128);
                out.append(" while preparing a commit");
                out
            },
            StoreError::PartitionBytesOverflow => {
                "partition reclaimed-byte count overflow".to_owned()
            },
            StoreError::PurgeRecovery { detail } => prefixed(
                "physical purge recovery failed: ",
                detail.as_str(),
            ),
            StoreError::Closing => "store is closing".to_owned(),
            StoreError::Closed => "store is closed".to_owned(),
            StoreError::ReadCancelled => "store close cancelled the admitted read".to_owned(),
            StoreError::BackgroundStart { source } => prefixed(
                "store lifecycle thread could not start: ",
                source.message.as_str(),
            ),
            StoreError::BackgroundHandshake => {
                "store lifecycle thread startup handshake failed".to_owned()
            },
            StoreError::BackgroundThreadPanicked => "store lifecycle thread panicked".to_owned(),
            StoreError::QueryPoolStart { source } => prefixed(
                "store query worker could not start: ",
                source.message.as_str(),
            ),
            StoreError::QueryPoolHandshake => {
                "store query worker startup handshake failed".to_owned()
            },
            StoreError::QueryPoolThreadPanicked => "store query worker panicked".to_owned(),
            StoreError::QueryPoolCapacity { source } => prefixed(
                "store query worker capacity failed: ",
                source.as_str(),
            ),
            StoreError::Synchronization { component } => prefixed(
                "store lifecycle synchronization poisoned: ",
                component,
            ),
        }
    }

    /// The failure underneath in words, where there is one.
    pub fn source(&self, inner: &str) -> (text: Option<String>)
        ensures
            text matches Some(words) ==> self.spec_source(inner@) == Some(words@),
            text is None ==> self.spec_source(inner@) is None,
    {
        match self {
            StoreError::Io { source, .. } => Some(source.message.clone()),
            StoreError::Lock(error) => Some(error.message()),
            StoreError::Durability(error) => Some(error.message()),
            StoreError::Kernel(text) => Some(text.clone()),
            StoreError::Manifest(error) => Some(error.message(inner)),
            StoreError::Tokenizer(text) => Some(text.clone()),
            StoreError::EpochMismatch(_) => Some(inner.to_owned()),
            StoreError::Segment(error) => Some(error.message()),
            StoreError::Wal(text) => Some(text.clone()),
            StoreError::WalRecovery(text) => Some(text.clone()),
            StoreError::WalRecord { source, .. } => Some(source.clone()),
            StoreError::WalMutation { source, .. } => Some(source.clone()),
            StoreError::WalVector { .. } => Some(inner.to_owned()),
            StoreError::WalWrite(text) => Some(text.clone()),
            StoreError::WalRetire(text) => Some(text.clone()),
            StoreError::Statistics { source, .. } => Some(source.message.clone()),
            StoreError::BackgroundStart { source } => Some(source.message.clone()),
            StoreError::QueryPoolStart { source } => Some(source.message.clone()),
            _ => None,
        }
    }
}

impl QueryError {
    /// The words of each failure; a scan or graph failure reads as `inner`, and a
    /// storage failure as it does with these words.
    pub open spec fn spec_message(self, inner: Seq<char>) -> Seq<char> {
        match self {
            QueryError::Timeout { partial } => "query deadline expired (partial="@ + bool_word(
                partial,
            ) + ")"@,
            QueryError::Cancelled { partial } => "query was cancelled (partial="@ + bool_word(
                partial,
            ) + ")"@,
            QueryError::ReadCancelled { partial } => "store close cancelled query (partial="@
                + bool_word(partial) + ")"@,
            QueryError::Store(error) => error.spec_message(inner),
            QueryError::Scan(_) => inner,
            QueryError::Graph(_) => inner,
        }
    }

    /// The failure in words. `inner` is how the scan or graph engine, or the layer
    /// below a storage failure, words its own failure.
    pub fn message(&self, inner: &str) -> (text: String)
        ensures
            text@ == self.spec_message(inner@),
    {
        match self {
            QueryError::Timeout { partial } => {
                let mut out = "query deadline expired (partial=".to_owned();
                push_bool(&mut out, *partial);
                out.append(")");
                out
            },
            QueryError::Cancelled { partial } => {
                let mut out = "query was cancelled (partial=".to_owned();
                push_bool(&mut out, *partial);
                out.append(")");
                out
            },
            QueryError::ReadCancelled { partial } => {
                let mut out = "store close cancelled query (partial=".to_owned();
                push_bool(&mut out, *partial);
                out.append(")");
                out
            },
            QueryError::Store(error) => error.message(inner),
            QueryError::Scan(_) => inner.to_owned(),
            QueryError::Graph(_) => inner.to_owned(),
        }
    }
}

/// Every storage failure that names a source reads with that source's words at
/// its end, whatever the failure.
pub proof fn lemma_message_ends_with_source(error: StoreError, inner: Seq<char>)
    ensures
        error.spec_source(inner) matches Some(words) ==> words.is_suffix_of(
            error.spec_message(inner),
        ),
{
    match error.spec_source(inner) {
        Some(words) => {
            let message = error.spec_message(inner);
            assert(message.subrange(message.len() - words.len(), message.len() as int) =~= words);
        },
        None => {},
    }
}

} // verus!
