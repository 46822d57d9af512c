use zeppelin_embed::durability::{
    CommitTier, DurabilityMode, DurabilityPolicy, SyncKind, SyncRequirement,
};
use zeppelin_embed::error::DurabilityPolicyError;

#[test]
fn maps_every_mode_and_tier_without_attached_fallback() {
    let cases = [
        (
            DurabilityMode::Derived,
            CommitTier::Unsynced,
            SyncRequirement::Skip,
        ),
        (
            DurabilityMode::Derived,
            CommitTier::Ordered,
            SyncRequirement::Skip,
        ),
        (
            DurabilityMode::Derived,
            CommitTier::Durable,
            SyncRequirement::Skip,
        ),
        (
            DurabilityMode::Durable,
            CommitTier::Unsynced,
            SyncRequirement::Skip,
        ),
        (
            DurabilityMode::Durable,
            CommitTier::Ordered,
            SyncRequirement::Sync(SyncKind::Barrier),
        ),
        (
            DurabilityMode::Durable,
            CommitTier::Durable,
            SyncRequirement::Sync(SyncKind::Full),
        ),
    ];
    for (mode, tier, expected) in cases {
        let policy = DurabilityPolicy::new(mode, tier).expect("supported policy");
        assert_eq!(
            (policy.data_file_sync(), policy.directory_sync()),
            (expected, expected),
            "policy mismatch for ({mode:?}, {tier:?})"
        );
    }
    for tier in [
        CommitTier::Unsynced,
        CommitTier::Ordered,
        CommitTier::Durable,
    ] {
        let error = DurabilityPolicy::new(DurabilityMode::Attached, tier)
            .expect_err("Attached must fail rather than fall back");
        assert_eq!(error, DurabilityPolicyError::AttachedNotYetSupported);
        assert_eq!(
            error.message(),
            "attached durability mode is not yet supported"
        );
    }
    assert_eq!(DurabilityMode::default(), DurabilityMode::Durable);
    assert_eq!(CommitTier::default(), CommitTier::Ordered);
}
