//! Opening a store: the order of the steps, what each decides, and when the
//! store is refused.

use crate::accounting::Accounting;
use crate::durability::requirement;
use crate::durability::DurabilityPolicy;
use crate::durability::SyncKind;
use crate::durability::SyncRequirement;
use crate::error::DurabilityPolicyError;
use crate::error::IoError;
use crate::error::IoErrorKind;
use crate::error::ManifestError;
use crate::error::Schema;
use crate::error::StoreError;
use crate::error::StoreLockError;
use crate::fault::MANIFEST_FILE;
use crate::ids::EpochIdentity;
use crate::ids::EpochMismatch;
use crate::lock::map_lock_error;
use crate::lock::reported;
use crate::options::AccessMode;
use crate::options::HybridLegTestFault;
use crate::options::OpenOptions;
use crate::options::StoreState;
use crate::paths::join;
use crate::paths::joined;
use crate::snapshot::EpochMeta;
use crate::snapshot::Manifest;
use crate::snapshot::PublishedSnapshot;
use crate::snapshot::SegmentMeta;
use crate::store::ActiveHandle;
use crate::store::Store;
use crate::store::Teardown;
use crate::text::same_str;
use vstd::prelude::*;

verus! {

/// Whether two schemas are the same declaration.
pub open spec fn same_schema(left: Schema, right: Schema) -> bool {
    left.columns@ == right.columns@ && left.label@ == right.label@
}

fn schemas_match(left: &Schema, right: &Schema) -> (result: bool)
    ensures
        result == same_schema(*left, *right),
{
    if left.columns.len() != right.columns.len() {
        return false;
    }
    let mut at: usize = 0;
    while at < left.columns.len()
        invariant
            at <= left.columns@.len(),
            left.columns@.len() == right.columns@.len(),
            forall|i: int| 0 <= i < at ==> left.columns@[i] == right.columns@[i],
        decreases left.columns.len() - at,
    {
        if left.columns[at] != right.columns[at] {
            assert(left.columns@[at as int] != right.columns@[at as int]);
            return false;
        }
        at = at + 1;
    }
    assert(left.columns@ == right.columns@);
    same_str(left.label.as_str(), right.label.as_str())
}

fn copy_schema(schema: &Schema) -> (copy: Schema)
    ensures
        same_schema(copy, *schema),
{
    let mut columns: Vec<u32> = Vec::with_capacity(schema.columns.len());
    let mut at: usize = 0;
    while at < schema.columns.len()
        invariant
            at <= schema.columns@.len(),
            columns@ == schema.columns@.take(at as int),
        decreases schema.columns.len() - at,
    {
        columns.push(schema.columns[at]);
        at = at + 1;
        assert(columns@ == schema.columns@.take(at as int));
    }
    assert(schema.columns@.take(at as int) == schema.columns@);
    Schema { columns, label: schema.label.clone() }
}

/// The schema that an open store has.
pub open spec fn is_resolved_schema(
    manifest_exists: bool,
    persisted: Schema,
    declared: Option<Schema>,
    plain: Schema,
    schema: Schema,
) -> bool {
    if manifest_exists {
        same_schema(schema, persisted)
    } else {
        match declared {
            Some(wanted) => same_schema(schema, wanted),
            None => same_schema(schema, plain),
        }
    }
}

/// Whether a declared schema contradicts the persisted one.
pub open spec fn schema_conflicts(
    manifest_exists: bool,
    persisted: Schema,
    declared: Option<Schema>,
) -> bool {
    manifest_exists && (declared matches Some(wanted) && !same_schema(wanted, persisted))
}

/// Resolves the schema of an open store: that of the manifest, which a
/// declaration has to match, or the declared one of a new store; `plain` is that
/// of a store without user columns.
pub fn resolve_open_schema(
    manifest_exists: bool,
    persisted: &Schema,
    declared: &Option<Schema>,
    plain: &Schema,
) -> (result: Result<Schema, StoreError>)
    ensures
        match result {
            Ok(schema) => !schema_conflicts(manifest_exists, *persisted, *declared)
                && is_resolved_schema(manifest_exists, *persisted, *declared, *plain, schema),
            Err(error) => schema_conflicts(manifest_exists, *persisted, *declared) && (
            error matches StoreError::SchemaMismatch { persisted: old_one, declared: new_one }
                && same_schema(old_one, *persisted) && same_schema(new_one, declared->0)),
        },
{
    if manifest_exists {
        if let Some(wanted) = declared {
            if !schemas_match(wanted, persisted) {
                return Err(
                    StoreError::SchemaMismatch {
                        persisted: copy_schema(persisted),
                        declared: copy_schema(wanted),
                    },
                );
            }
        }
        Ok(copy_schema(persisted))
    } else {
        match declared {
            Some(wanted) => Ok(copy_schema(wanted)),
            None => Ok(copy_schema(plain)),
        }
    }
}

/// The verdict on a declared identity.
pub open spec fn identity_verdict(
    persisted: Option<EpochIdentity>,
    declared: Option<EpochIdentity>,
    manifest_exists: bool,
    access_mode: AccessMode,
) -> Result<(), StoreError> {
    match (persisted, declared) {
        (Some(expected), Some(declared)) => if expected != declared {
            Err(StoreError::EpochMismatch(EpochMismatch { expected, declared }))
        } else {
            Ok(())
        },
        (Some(_), None) => Err(StoreError::EpochUndeclared),
        (None, Some(_)) => if manifest_exists || access_mode == AccessMode::ReadOnly {
            Err(StoreError::EpochUnstamped)
        } else {
            Ok(())
        },
        (None, None) => Ok(()),
    }
}

/// Checks a declared identity against the persisted one: a stamped store has to
/// be declared and to match, and an existing store is not stamped later.
pub fn validate_epoch_identity(
    persisted: Option<EpochIdentity>,
    declared: Option<EpochIdentity>,
    manifest_exists: bool,
    access_mode: AccessMode,
) -> (result: Result<(), StoreError>)
    ensures
        result == identity_verdict(persisted, declared, manifest_exists, access_mode),
{
    match (persisted, declared) {
        (Some(expected), Some(declared)) => {
            if expected != declared {
                Err(StoreError::EpochMismatch(EpochMismatch { expected, declared }))
            } else {
                Ok(())
            }
        },
        (Some(_), None) => Err(StoreError::EpochUndeclared),
        (None, Some(_)) => {
            if manifest_exists || access_mode == AccessMode::ReadOnly {
                Err(StoreError::EpochUnstamped)
            } else {
                Ok(())
            }
        },
        (None, None) => Ok(()),
    }
}

/// The verdict on a tokenizer.
pub open spec fn tokenizer_verdict(expected: Option<EpochIdentity>, tokenizer: u64) -> Result<
    (),
    StoreError,
> {
    match expected {
        Some(expected) => if tokenizer != expected.tokenizer {
            Err(
                StoreError::EpochMismatch(
                    EpochMismatch {
                        expected,
                        declared: EpochIdentity { embedding: expected.embedding, tokenizer },
                    },
                ),
            )
        } else {
            Ok(())
        },
        None => Ok(()),
    }
}

/// Checks a tokenizer's epoch against the store's identity.
pub fn validate_tokenizer_epoch(expected: Option<EpochIdentity>, tokenizer: u64) -> (result: Result<
    (),
    StoreError,
>)
    ensures
        result == tokenizer_verdict(expected, tokenizer),
{
    match expected {
        Some(expected) => {
            if tokenizer != expected.tokenizer {
                Err(
                    StoreError::EpochMismatch(
                        EpochMismatch {
                            expected,
                            declared: EpochIdentity { embedding: expected.embedding, tokenizer },
                        },
                    ),
                )
            } else {
                Ok(())
            }
        },
        None => Ok(()),
    }
}

/// The step that an open has come to; each names what is done next.
#[derive(Clone, Copy, Debug, PartialEq, Eq, Structural)]
pub enum OpenStage {
    EnsureDirectory,
    AcquireLock,
    ProbeManifest,
    LoadSnapshot,
    BuildTokenizer,
    RecoverActive,
    SyncDirectory,
    CommitManifest,
    ResumeWal,
    CreateWal,
    StartBackground,
    Publish,
}

impl OpenStage {
    /// Whether the step changes anything on disk or takes the writer slot.
    pub open spec fn writes(self) -> bool {
        match self {
            OpenStage::AcquireLock => true,
            OpenStage::SyncDirectory => true,
            OpenStage::CommitManifest => true,
            OpenStage::ResumeWal => true,
            OpenStage::CreateWal => true,
            _ => false,
        }
    }
}

/// What recovery of the active segment found.
#[derive(Clone, Copy, Debug, PartialEq, Eq, Structural)]
pub struct RecoveredActive {
    pub active: ActiveHandle,
    /// A log was there to resume.
    pub wal: bool,
}

/// An open between two steps.
#[derive(Debug)]
pub struct OpenPlan {
    pub path: String,
    pub options: OpenOptions,
    pub policy: DurabilityPolicy,
    pub stage: OpenStage,
    pub manifest_exists: bool,
    pub snapshot: Option<PublishedSnapshot>,
    pub schema: Schema,
    pub persisted: Option<EpochIdentity>,
    pub active: ActiveHandle,
    pub wal: bool,
}

/// The declared identity of an open.
pub open spec fn declared_identity(options: OpenOptions) -> Option<EpochIdentity> {
    match options.epoch {
        Some(epoch) => Some(epoch.identity),
        None => None,
    }
}

/// The identity that an open store has.
pub open spec fn effective_identity(
    persisted: Option<EpochIdentity>,
    declared: Option<EpochIdentity>,
) -> Option<EpochIdentity> {
    match persisted {
        Some(identity) => Some(identity),
        None => declared,
    }
}

impl OpenPlan {
    /// Whether the open may write.
    pub open spec fn writable(self) -> bool {
        self.options.access_mode == AccessMode::ReadWrite
    }

    /// The plan is one that no read-only open writes in.
    pub open spec fn wf(self) -> bool {
        &&& self.stage.writes() ==> self.writable()
        &&& self.stage == OpenStage::SyncDirectory ==> self.policy.directory() is Sync
        &&& self.stage == OpenStage::Publish ==> self.snapshot is Some
    }

    /// Nothing but the step has changed.
    pub open spec fn moved(self, stage: OpenStage) -> OpenPlan {
        OpenPlan { stage, ..self }
    }

    /// Starts an open. `kernels` is how the scoring kernels initialized; where
    /// they did, only the durability policy can refuse the open. `plain` is the
    /// schema of a store without user columns.
    pub fn begin(
        path: String,
        options: OpenOptions,
        plain: Schema,
        kernels: Result<(), String>,
    ) -> (result: Result<OpenPlan, StoreError>)
        ensures
            match kernels {
                Err(detail) => result == Err::<OpenPlan, StoreError>(StoreError::Kernel(detail)),
                Ok(_) => match requirement(
                    options.durability_mode,
                    options.commit_tier,
                ) {
                    None => result == Err::<OpenPlan, StoreError>(
                        StoreError::Durability(DurabilityPolicyError::AttachedNotYetSupported),
                    ),
                    Some(wanted) => result matches Ok(plan) && {
                        &&& plan.wf()
                        &&& plan.path == path
                        &&& plan.options == options
                        &&& plan.schema == plain
                        &&& plan.policy.data_file() == wanted
                        &&& plan.policy.directory() == wanted
                        &&& plan.stage == OpenStage::EnsureDirectory
                        &&& !plan.manifest_exists
                        &&& plan.snapshot is None
                        &&& plan.persisted is None
                        &&& plan.active == (ActiveHandle { generation: 0, rows: 0 })
                        &&& !plan.wal
                    },
                },
            },
    {
        match kernels {
            Err(detail) => {
                return Err(StoreError::Kernel(detail));
            },
            Ok(_) => {},
        }
        match DurabilityPolicy::new(options.durability_mode, options.commit_tier) {
            Err(error) => Err(StoreError::Durability(error)),
            Ok(policy) => Ok(
                OpenPlan {
                    path,
                    options,
                    policy,
                    stage: OpenStage::EnsureDirectory,
                    manifest_exists: false,
                    snapshot: None,
                    schema: plain,
                    persisted: None,
                    active: ActiveHandle { generation: 0, rows: 0 },
                    wal: false,
                },
            ),
        }
    }

    /// Whether the directory is made where it is missing.
    pub fn creates_directory(&self) -> (result: bool)
        ensures
            result == self.writable(),
    {
        self.options.access_mode == AccessMode::ReadWrite
    }

    /// Takes whether the path is a directory.
    pub fn directory_ensured(&mut self, outcome: Result<bool, IoError>) -> (result: Result<
        (),
        StoreError,
    >)
        requires
            old(self).wf(),
            old(self).stage == OpenStage::EnsureDirectory,
        ensures
            final(self).wf(),
            match outcome {
                Err(source) => {
                    &&& result matches Err(StoreError::Io { path, source: cause }) && path@
                        == old(self).path@ && cause == source
                    &&& *final(self) == *old(self)
                },
                Ok(false) => {
                    &&& result matches Err(StoreError::NotDirectory { path }) && path@
                        == old(self).path@
                    &&& *final(self) == *old(self)
                },
                Ok(true) => {
                    &&& result is Ok
                    &&& *final(self) == old(self).moved(
                        if old(self).writable() {
                            OpenStage::AcquireLock
                        } else {
                            OpenStage::ProbeManifest
                        },
                    )
                },
            },
    {
        match outcome {
            Err(source) => Err(StoreError::Io { path: self.path.clone(), source }),
            Ok(is_directory) => {
                if !is_directory {
                    return Err(StoreError::NotDirectory { path: self.path.clone() });
                }
                self.stage =
                if self.options.access_mode == AccessMode::ReadWrite {
                    OpenStage::AcquireLock
                } else {
                    OpenStage::ProbeManifest
                };
                Ok(())
            },
        }
    }

    /// Takes whether the writer lock was acquired.
    pub fn lock_acquired(&mut self, outcome: Result<(), StoreLockError>) -> (result: Result<
        (),
        StoreError,
    >)
        requires
            old(self).wf(),
            old(self).stage == OpenStage::AcquireLock,
        ensures
            final(self).wf(),
            match outcome {
                Err(error) => result == Err::<(), StoreError>(reported(error)) && *final(self)
                    == *old(self),
                Ok(_) => result is Ok && *final(self) == old(self).moved(OpenStage::ProbeManifest),
            },
    {
        match outcome {
            Err(error) => Err(map_lock_error(error)),
            Ok(_) => {
                self.stage = OpenStage::ProbeManifest;
                Ok(())
            },
        }
    }

    /// Takes whether a manifest is there; a missing one is no failure.
    pub fn manifest_probed(&mut self, outcome: Result<(), IoError>) -> (result: Result<
        (),
        StoreError,
    >)
        requires
            old(self).wf(),
            old(self).stage == OpenStage::ProbeManifest,
        ensures
            final(self).wf(),
            match outcome {
                Ok(_) => result is Ok && *final(self) == (OpenPlan {
                    manifest_exists: true,
                    stage: OpenStage::LoadSnapshot,
                    ..*old(self)
                }),
                Err(source) => if source.kind == IoErrorKind::NotFound {
                    result is Ok && *final(self) == (OpenPlan {
                        manifest_exists: false,
                        stage: OpenStage::LoadSnapshot,
                        ..*old(self)
                    })
                } else {
                    &&& result matches Err(StoreError::Io { path, source: cause }) && path@
                        == joined(old(self).path@, MANIFEST_FILE@) && cause == source
                    &&& *final(self) == *old(self)
                },
            },
    {
        match outcome {
            Ok(_) => {
                self.manifest_exists = true;
            },
            Err(source) => {
                if source.kind != IoErrorKind::NotFound {
                    return Err(
                        StoreError::Io { path: join(self.path.as_str(), MANIFEST_FILE), source },
                    );
                }
                self.manifest_exists = false;
            },
        }
        self.stage = OpenStage::LoadSnapshot;
        Ok(())
    }

    /// What is wrong with a loaded snapshot.
    pub open spec fn snapshot_verdict(self, snapshot: PublishedSnapshot) -> Result<(), StoreError> {
        identity_verdict(
            snapshot.epoch_alias,
            declared_identity(self.options),
            self.manifest_exists,
            self.options.access_mode,
        )
    }

    /// Takes the loaded snapshot: its schema has to match a declared one, then
    /// its identity a declared one.
    pub fn snapshot_loaded(&mut self, outcome: Result<PublishedSnapshot, StoreError>) -> (result:
        Result<(), StoreError>)
        requires
            old(self).wf(),
            old(self).stage == OpenStage::LoadSnapshot,
        ensures
            final(self).wf(),
            result is Err ==> *final(self) == *old(self),
            match outcome {
                Err(error) => result == Err::<(), StoreError>(error),
                Ok(snapshot) => if schema_conflicts(
                    old(self).manifest_exists,
                    snapshot.schema,
                    old(self).options.schema,
                ) {
                    result matches Err(
                        StoreError::SchemaMismatch { persisted, declared },
                    ) && same_schema(persisted, snapshot.schema) && same_schema(
                        declared,
                        old(self).options.schema->0,
                    )
                } else {
                    match old(self).snapshot_verdict(snapshot) {
                        Err(error) => result == Err::<(), StoreError>(error),
                        Ok(_) => {
                            &&& result is Ok
                            &&& is_resolved_schema(
                                old(self).manifest_exists,
                                snapshot.schema,
                                old(self).options.schema,
                                old(self).schema,
                                final(self).schema,
                            )
                            &&& *final(self) == (OpenPlan {
                                snapshot: Some(snapshot),
                                schema: final(self).schema,
                                persisted: snapshot.epoch_alias,
                                stage: OpenStage::BuildTokenizer,
                                ..*old(self)
                            })
                        },
                    }
                },
            },
    {
        let snapshot = match outcome {
            Ok(snapshot) => snapshot,
            Err(error) => {
                return Err(error);
            },
        };
        let schema = resolve_open_schema(
            self.manifest_exists,
            &snapshot.schema,
            &self.options.schema,
            &self.schema,
        )?;
        let declared = match &self.options.epoch {
            Some(epoch) => Some(epoch.identity),
            None => None,
        };
        validate_epoch_identity(
            snapshot.epoch_alias,
            declared,
            self.manifest_exists,
            self.options.access_mode,
        )?;
        self.schema = schema;
        self.persisted = snapshot.epoch_alias;
        self.snapshot = Some(snapshot);
        self.stage = OpenStage::BuildTokenizer;
        Ok(())
    }

    /// Takes the epoch of the tokenizer that was built.
    pub fn tokenizer_built(&mut self, outcome: Result<u64, String>) -> (result: Result<
        (),
        StoreError,
    >)
        requires
            old(self).wf(),
            old(self).stage == OpenStage::BuildTokenizer,
        ensures
            final(self).wf(),
            match outcome {
                Err(detail) => result == Err::<(), StoreError>(StoreError::Tokenizer(detail))
                    && *final(self) == *old(self),
                Ok(epoch) => match tokenizer_verdict(
                    effective_identity(
                        old(self).persisted,
                        declared_identity(old(self).options),
                    ),
                    epoch,
                ) {
                    Err(error) => result == Err::<(), StoreError>(error) && *final(self) == *old(
                        self,
                    ),
                    Ok(_) => result is Ok && *final(self) == old(self).moved(
                        OpenStage::RecoverActive,
                    ),
                },
            },
    {
        let epoch: u64 = match outcome {
            Ok(epoch) => epoch,
            Err(detail) => {
                return Err(StoreError::Tokenizer(detail));
            },
        };
        let identity = self.identity();
        validate_tokenizer_epoch(identity, epoch)?;
        self.stage = OpenStage::RecoverActive;
        Ok(())
    }

    /// The identity that the store has: the persisted one, else the declared.
    pub fn identity(&self) -> (identity: Option<EpochIdentity>)
        ensures
            identity == effective_identity(self.persisted, declared_identity(self.options)),
    {
        match self.persisted {
            Some(identity) => Some(identity),
            None => match &self.options.epoch {
                Some(epoch) => Some(epoch.identity),
                None => None,
            },
        }
    }

    /// The step behind the manifest's: a writer gets a log.
    pub open spec fn wal_stage(self) -> OpenStage {
        if !self.writable() {
            OpenStage::Publish
        } else if self.wal {
            OpenStage::ResumeWal
        } else {
            OpenStage::CreateWal
        }
    }

    /// The step behind recovery: a writer makes an adopted manifest durable, or
    /// stamps a new store that declares an epoch or a schema.
    pub open spec fn manifest_stage(self) -> OpenStage {
        if self.writable() && self.manifest_exists && self.policy.directory() is Sync {
            OpenStage::SyncDirectory
        } else if self.writable() && !self.manifest_exists && (self.options.epoch is Some
            || self.options.schema is Some) {
            OpenStage::CommitManifest
        } else {
            self.wal_stage()
        }
    }

    fn after_manifest(&self) -> (stage: OpenStage)
        ensures
            stage == self.wal_stage(),
    {
        if self.options.access_mode != AccessMode::ReadWrite {
            OpenStage::Publish
        } else if self.wal {
            OpenStage::ResumeWal
        } else {
            OpenStage::CreateWal
        }
    }

    /// Takes the recovered active segment.
    pub fn active_recovered(&mut self, outcome: Result<RecoveredActive, StoreError>) -> (result:
        Result<(), StoreError>)
        requires
            old(self).wf(),
            old(self).snapshot is Some,
            old(self).stage == OpenStage::RecoverActive,
        ensures
            final(self).wf(),
            match outcome {
                Err(error) => result == Err::<(), StoreError>(error) && *final(self) == *old(self),
                Ok(recovered) => {
                    let found = OpenPlan {
                        active: recovered.active,
                        wal: recovered.wal,
                        ..*old(self)
                    };
                    result is Ok && *final(self) == found.moved(found.manifest_stage())
                },
            },
    {
        let recovered = match outcome {
            Ok(recovered) => recovered,
            Err(error) => {
                return Err(error);
            },
        };
        self.active = recovered.active;
        self.wal = recovered.wal;
        let writable = self.options.access_mode == AccessMode::ReadWrite;
        if writable && self.manifest_exists {
            if let SyncRequirement::Sync(_) = self.policy.directory_sync() {
                self.stage = OpenStage::SyncDirectory;
                return Ok(());
            }
        }
        if writable && !self.manifest_exists && (self.options.epoch.is_some()
            || self.options.schema.is_some()) {
            self.stage = OpenStage::CommitManifest;
            return Ok(());
        }
        self.stage = self.after_manifest();
        Ok(())
    }

    /// The synchronization that an adopted manifest's directory gets.
    pub fn directory_sync(&self) -> (kind: SyncKind)
        requires
            self.wf(),
            self.stage == OpenStage::SyncDirectory,
        ensures
            self.policy.directory() == SyncRequirement::Sync(kind),
    {
        match self.policy.directory_sync() {
            SyncRequirement::Sync(kind) => kind,
            SyncRequirement::Skip => SyncKind::Full,
        }
    }

    /// Takes whether the directory was synchronized.
    pub fn directory_synced(&mut self, outcome: Result<(), IoError>) -> (result: Result<
        (),
        StoreError,
    >)
        requires
            old(self).wf(),
            old(self).snapshot is Some,
            old(self).stage == OpenStage::SyncDirectory,
        ensures
            final(self).wf(),
            match outcome {
                Err(source) => {
                    &&& result matches Err(StoreError::Io { path, source: cause }) && path@
                        == old(self).path@ && cause == source
                    &&& *final(self) == *old(self)
                },
                Ok(_) => result is Ok && *final(self) == old(self).moved(old(self).wal_stage()),
            },
    {
        match outcome {
            Err(source) => Err(StoreError::Io { path: self.path.clone(), source }),
            Ok(_) => {
                self.stage = self.after_manifest();
                Ok(())
            },
        }
    }

    /// The first manifest of a new store: no segment and no log, stamped with
    /// what the open declares. `epoch` is the record of the declared epoch.
    pub open spec fn is_first_manifest(self, epoch: Option<EpochMeta>, manifest: Manifest) -> bool {
        &&& manifest.generation == self.active.generation
        &&& manifest.log_seq == 0
        &&& manifest.segments@ == Seq::<SegmentMeta>::empty()
        &&& manifest.epochs@ == match epoch {
            Some(meta) => seq![meta],
            None => Seq::empty(),
        }
        &&& manifest.epoch_alias == declared_identity(self.options)
        &&& same_schema(manifest.schema, self.schema)
    }

    /// The manifest that a new store which declares an epoch or a schema is
    /// stamped with.
    pub fn first_manifest(&self, epoch: Option<EpochMeta>) -> (manifest: Manifest)
        requires
            self.stage == OpenStage::CommitManifest,
        ensures
            self.is_first_manifest(epoch, manifest),
    {
        let mut epochs: Vec<EpochMeta> = Vec::new();
        if let Some(meta) = epoch {
            epochs.push(meta);
        }
        let epoch_alias = match &self.options.epoch {
            Some(declared) => Some(declared.identity),
            None => None,
        };
        Manifest {
            generation: self.active.generation,
            log_seq: 0,
            segments: Vec::new(),
            epochs,
            epoch_alias,
            schema: copy_schema(&self.schema),
        }
    }

    /// Takes whether the first manifest was committed.
    pub fn manifest_committed(&mut self, outcome: Result<(), ManifestError>) -> (result: Result<
        (),
        StoreError,
    >)
        requires
            old(self).wf(),
            old(self).snapshot is Some,
            old(self).stage == OpenStage::CommitManifest,
        ensures
            final(self).wf(),
            match outcome {
                Err(error) => result == Err::<(), StoreError>(StoreError::Manifest(error))
                    && *final(self) == *old(self),
                Ok(_) => result is Ok && *final(self) == old(self).moved(old(self).wal_stage()),
            },
    {
        match outcome {
            Err(error) => Err(StoreError::Manifest(error)),
            Ok(_) => {
                self.stage = self.after_manifest();
                Ok(())
            },
        }
    }

    /// Takes whether the log is ready.
    pub fn wal_ready(&mut self, outcome: Result<(), StoreError>) -> (result: Result<(), StoreError>)
        requires
            old(self).wf(),
            old(self).stage == OpenStage::ResumeWal || old(self).stage == OpenStage::CreateWal,
        ensures
            final(self).wf(),
            result == outcome,
            *final(self) == if outcome is Ok {
                old(self).moved(OpenStage::StartBackground)
            } else {
                *old(self)
            },
    {
        if outcome.is_ok() {
            self.stage = OpenStage::StartBackground;
        }
        outcome
    }

    /// Takes whether the lifecycle thread started.
    pub fn background_started(&mut self, outcome: Result<(), StoreError>) -> (result: Result<
        (),
        StoreError,
    >)
        requires
            old(self).wf(),
            old(self).snapshot is Some,
            old(self).stage == OpenStage::StartBackground,
        ensures
            final(self).wf(),
            result == outcome,
            *final(self) == if outcome is Ok {
                old(self).moved(OpenStage::Publish)
            } else {
                *old(self)
            },
    {
        if outcome.is_ok() {
            self.stage = OpenStage::Publish;
        }
        outcome
    }

    /// The open handle, with its snapshot published.
    pub open spec fn is_opened_handle(
        self,
        handle: u64,
        epoch_meta: Option<EpochMeta>,
        fault: Option<HybridLegTestFault>,
        store: Store,
    ) -> bool {
        let snapshot = self.snapshot->0;
        &&& store.handle == handle
        &&& store.state == StoreState::Open
        &&& store.teardown == Teardown::NotStarted
        &&& store.background == self.writable()
        &&& store.writer_lock == self.writable()
        &&& !store.query_pool
        &&& !store.lexical_worker
        &&& store.snapshot == Some(snapshot)
        &&& store.active == Some(
            ActiveHandle {
                generation: if self.active.generation < snapshot.generation {
                    snapshot.generation
                } else {
                    self.active.generation
                },
                rows: self.active.rows,
            },
        )
        &&& store.durability_policy == self.policy
        &&& store.reader_drain_timeout == self.options.reader_drain_timeout
        &&& store.accounting.budgets.resident == self.options.max_resident_bytes
        &&& store.accounting.budgets.temporary == self.options.max_temp_bytes
        &&& store.active_queries == 0
        &&& store.epoch == self.options.epoch
        &&& store.epoch_meta == epoch_meta
        &&& store.epoch_alias == effective_identity(self.persisted, declared_identity(self.options))
        &&& same_schema(store.schema, self.schema)
        &&& store.hybrid_leg_fault == fault
        &&& store.hybrid_execution_receipt is None
    }

    /// Makes the handle and publishes its snapshot. What is left of opening
    /// works on the handle.
    pub fn publish(
        self,
        handle: u64,
        accounting: Accounting,
        epoch_meta: Option<EpochMeta>,
        fault: Option<HybridLegTestFault>,
    ) -> (store: Store)
        requires
            self.wf(),
            self.stage == OpenStage::Publish,
            accounting.budgets.resident == self.options.max_resident_bytes,
            accounting.budgets.temporary == self.options.max_temp_bytes,
        ensures
            self.is_opened_handle(handle, epoch_meta, fault, store),
            store.accounting == accounting,
            store.orderly(),
    {
        let identity = self.identity();
        let writable = self.options.access_mode == AccessMode::ReadWrite;
        let schema = copy_schema(&self.schema);
        let mut generation: u64 = self.active.generation;
        if let Some(snapshot) = &self.snapshot {
            if generation < snapshot.generation {
                generation = snapshot.generation;
            }
        }
        Store {
            handle,
            state: StoreState::Open,
            teardown: Teardown::NotStarted,
            background: writable,
            query_pool: false,
            lexical_worker: false,
            snapshot: self.snapshot,
            active: Some(ActiveHandle { generation, rows: self.active.rows }),
            writer_lock: writable,
            durability_policy: self.policy,
            reader_drain_timeout: self.options.reader_drain_timeout,
            accounting,
            active_queries: 0,
            epoch: self.options.epoch,
            epoch_meta,
            epoch_alias: identity,
            schema,
            hybrid_leg_fault: fault,
            hybrid_execution_receipt: None,
        }
    }
}

/// What follows publication: a purge that was interrupted, tombstones of sealed
/// rows, and, for a writer, orphaned files. The first failure ends the open.
pub fn finish_open(
    access_mode: AccessMode,
    purge: Result<(), String>,
    tombstones: Result<(), StoreError>,
    cleanup: Result<(), StoreError>,
) -> (result: Result<(), StoreError>)
    ensures
        result == match purge {
            Err(detail) => Err(StoreError::PurgeRecovery { detail }),
            Ok(_) => match tombstones {
                Err(error) => Err(error),
                Ok(_) => if access_mode == AccessMode::ReadWrite {
                    cleanup
                } else {
                    Ok(())
                },
            },
        },
{
    match purge {
        Err(detail) => {
            return Err(StoreError::PurgeRecovery { detail });
        },
        Ok(_) => {},
    }
    tombstones?;
    if access_mode == AccessMode::ReadWrite {
        cleanup?;
    }
    Ok(())
}

/// A read-only open never writes: no step that it comes to changes anything on
/// disk or takes the writer slot.
pub proof fn lemma_read_only_open_never_writes(plan: OpenPlan)
    requires
        plan.wf(),
        !plan.writable(),
    ensures
        !plan.stage.writes(),
        !plan.manifest_stage().writes(),
        !plan.wal_stage().writes(),
{
}

/// An open store has the identity that its manifest was stamped with, and only
/// a handle that declares it gets in.
pub proof fn lemma_stamped_store_needs_its_identity(
    persisted: EpochIdentity,
    declared: Option<EpochIdentity>,
    manifest_exists: bool,
    access_mode: AccessMode,
)
    ensures
        identity_verdict(Some(persisted), declared, manifest_exists, access_mode) is Ok
            <==> declared == Some(persisted),
        effective_identity(Some(persisted), declared) == Some(persisted),
{
}

/// An existing store is never stamped afterwards: a declaration that its
/// manifest does not carry is refused.
pub proof fn lemma_existing_store_is_not_stamped(
    declared: EpochIdentity,
    access_mode: AccessMode,
)
    ensures
        identity_verdict(None, Some(declared), true, access_mode) == Err::<(), StoreError>(
            StoreError::EpochUnstamped,
        ),
{
}

} // verus!
