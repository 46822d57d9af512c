//! Per-store and per-commit durability policy.

use crate::error::DurabilityPolicyError;
use vstd::prelude::*;

verus! {

/// Which store owns authoritative state.
#[derive(Clone, Copy, Debug, PartialEq, Eq, Structural)]
pub enum DurabilityMode {
    /// The host store is authoritative and this store can be rebuilt;
    /// synchronization is always skipped.
    Derived,
    /// This store is the source of truth and applies the selected commit tier.
    Durable,
    /// Participate in a host transaction; reported as not supported.
    Attached,
}

impl Default for DurabilityMode {
    fn default() -> (mode: DurabilityMode)
        ensures
            mode == DurabilityMode::Durable,
    {
        DurabilityMode::Durable
    }
}

/// Synchronization strength of one commit in [`DurabilityMode::Durable`].
#[derive(Clone, Copy, Debug, PartialEq, Eq, Structural)]
pub enum CommitTier {
    /// Buffer writes without synchronization.
    Unsynced,
    /// Order earlier writes before later writes with the platform barrier.
    Ordered,
    /// Flush writes through to durable media with the platform full sync.
    Durable,
}

impl Default for CommitTier {
    fn default() -> (tier: CommitTier)
        ensures
            tier == CommitTier::Ordered,
    {
        CommitTier::Ordered
    }
}

/// A synchronization primitive.
#[derive(Clone, Copy, Debug, PartialEq, Eq, Structural)]
pub enum SyncKind {
    Barrier,
    Full,
}

/// An explicit synchronization decision at one protocol boundary.
#[derive(Clone, Copy, Debug, PartialEq, Eq, Structural)]
pub enum SyncRequirement {
    /// Deliberately issue no synchronization primitive.
    Skip,
    /// Issue the named synchronization primitive.
    Sync(SyncKind),
}

/// Validated synchronization decisions for one store and commit.
///
/// Data-file and directory synchronization remain separate questions even
/// where the policy resolves them to the same requirement.
#[derive(Clone, Copy, Debug, PartialEq, Eq, Structural)]
pub struct DurabilityPolicy {
    data_file: SyncRequirement,
    directory: SyncRequirement,
}

/// What one mode and tier ask for; an attached store asks for what there is
/// not.
pub open spec fn requirement(mode: DurabilityMode, tier: CommitTier) -> Option<SyncRequirement> {
    match mode {
        DurabilityMode::Attached => None,
        DurabilityMode::Derived => Some(SyncRequirement::Skip),
        DurabilityMode::Durable => match tier {
            CommitTier::Unsynced => Some(SyncRequirement::Skip),
            CommitTier::Ordered => Some(SyncRequirement::Sync(SyncKind::Barrier)),
            CommitTier::Durable => Some(SyncRequirement::Sync(SyncKind::Full)),
        },
    }
}

impl DurabilityPolicy {
    /// The decision for data files.
    pub closed spec fn data_file(self) -> SyncRequirement {
        self.data_file
    }

    /// The decision for directories.
    pub closed spec fn directory(self) -> SyncRequirement {
        self.directory
    }

    /// Resolves one mode and tier without a fallback.
    pub fn new(mode: DurabilityMode, tier: CommitTier) -> (result: Result<
        DurabilityPolicy,
        DurabilityPolicyError,
    >)
        ensures
            match requirement(mode, tier) {
                Some(wanted) => result matches Ok(policy) && policy.data_file() == wanted
                    && policy.directory() == wanted,
                None => result == Err::<DurabilityPolicy, DurabilityPolicyError>(
                    DurabilityPolicyError::AttachedNotYetSupported,
                ),
            },
    {
        let wanted = match (mode, tier) {
            (DurabilityMode::Attached, _) => {
                return Err(DurabilityPolicyError::AttachedNotYetSupported);
            },
            (DurabilityMode::Derived, _) => SyncRequirement::Skip,
            (DurabilityMode::Durable, CommitTier::Unsynced) => SyncRequirement::Skip,
            (DurabilityMode::Durable, CommitTier::Ordered) => SyncRequirement::Sync(
                SyncKind::Barrier,
            ),
            (DurabilityMode::Durable, CommitTier::Durable) => SyncRequirement::Sync(SyncKind::Full),
        };
        Ok(DurabilityPolicy { data_file: wanted, directory: wanted })
    }

    /// The requirement for a written data file.
    pub fn data_file_sync(self) -> (wanted: SyncRequirement)
        ensures
            wanted == self.data_file(),
    {
        self.data_file
    }

    /// The requirement for the containing directory.
    pub fn directory_sync(self) -> (wanted: SyncRequirement)
        ensures
            wanted == self.directory(),
    {
        self.directory
    }
}

/// Only an attached store is refused, and a store that is not the source of
/// truth never synchronizes.
pub proof fn lemma_every_supported_pair_resolves(mode: DurabilityMode, tier: CommitTier)
    ensures
        requirement(mode, tier) is None <==> mode == DurabilityMode::Attached,
        mode == DurabilityMode::Derived ==> requirement(mode, tier) == Some(SyncRequirement::Skip),
{
}

} // verus!
