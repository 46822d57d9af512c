//! Generation-stamped immutable snapshots, the leases on them and how readers
//! are drained.

use crate::clock::LATEST_INSTANT;
use crate::control::settled;
use crate::control::state_of;
use crate::control::StopFlags;
use crate::control::StopState;
use crate::error::GraphProfileError;
use crate::error::IoError;
use crate::error::IoErrorKind;
use crate::error::ManifestError;
use crate::error::Schema;
use crate::error::StoreError;
use crate::fault::MANIFEST_FILE;
use crate::ids::EpochIdentity;
use crate::ids::SegmentId;
use crate::options::GraphSearchProfile;
use crate::paths::join;
use crate::paths::joined;
use vstd::prelude::*;

verus! {

/// Manifest record of one segment.
#[derive(Clone, Copy, Debug, PartialEq, Eq, Structural)]
pub struct SegmentMeta {
    pub id: SegmentId,
    pub scheme: u16,
    pub dims: u32,
    pub row_count: u32,
    /// Embedding that the segment was built under.
    pub epoch_id: Option<u64>,
}

/// Manifest record of one registered epoch.
#[derive(Clone, Copy, Debug, PartialEq, Eq)]
pub struct EpochMeta {
    pub identity: EpochIdentity,
    /// Traversal profile of the epoch's metric, or why there is none.
    pub profile: Result<GraphSearchProfile, GraphProfileError>,
}

/// One committed manifest.
#[derive(Debug)]
pub struct Manifest {
    pub generation: u64,
    pub log_seq: u64,
    pub segments: Vec<SegmentMeta>,
    pub epochs: Vec<EpochMeta>,
    pub epoch_alias: Option<EpochIdentity>,
    pub schema: Schema,
}

/// How far reading a manifest came.
#[derive(Debug)]
pub enum ManifestRead {
    /// The manifest could not be opened.
    Unopened(IoError),
    /// The log's durable prefix could not be opened.
    NoLog(String),
    /// The manifest could not be loaded.
    Invalid(ManifestError),
    /// The manifest was loaded: the bytes that each segment maps, in opening
    /// order, or why one could not be opened, and whether the ceilings take
    /// their sum.
    Read {
        manifest: Manifest,
        opened: Result<Vec<u64>, StoreError>,
        reserved: Result<(), StoreError>,
    },
}

impl Manifest {
    /// The segments in the order in which they are opened.
    pub fn opening_order(&self) -> (segments: Vec<SegmentMeta>)
        ensures
            segments@ == opening_order(self.epoch_alias, self.segments@),
    {
        let mut segments: Vec<SegmentMeta> = Vec::with_capacity(self.segments.len());
        push_chosen(self.epoch_alias, &self.segments, true, &mut segments);
        assert(segments@ == chosen(self.epoch_alias, self.segments@, true));
        push_chosen(self.epoch_alias, &self.segments, false, &mut segments);
        segments
    }
}

/// Whether a segment belongs to the published epoch; without an alias every
/// segment does.
pub open spec fn published(alias: Option<EpochIdentity>, segment: SegmentMeta) -> bool {
    match alias {
        None => true,
        Some(identity) => segment.epoch_id == Some(identity.embedding),
    }
}

/// Whether a segment belongs to the published epoch.
pub fn segment_is_published(alias: Option<EpochIdentity>, segment: &SegmentMeta) -> (result: bool)
    ensures
        result == published(alias, *segment),
{
    match alias {
        None => true,
        Some(identity) => match segment.epoch_id {
            Some(embedding) => embedding == identity.embedding,
            None => false,
        },
    }
}

/// The segments that are published, or those that are not, in manifest order.
pub open spec fn chosen(
    alias: Option<EpochIdentity>,
    segments: Seq<SegmentMeta>,
    wanted: bool,
) -> Seq<SegmentMeta>
    decreases segments.len(),
{
    if segments.len() == 0 {
        Seq::empty()
    } else {
        let earlier = chosen(alias, segments.drop_last(), wanted);
        if published(alias, segments.last()) == wanted {
            earlier.push(segments.last())
        } else {
            earlier
        }
    }
}

/// The segments in the order in which they are opened: published ones first.
pub open spec fn opening_order(alias: Option<EpochIdentity>, segments: Seq<SegmentMeta>) -> Seq<
    SegmentMeta,
> {
    chosen(alias, segments, true) + chosen(alias, segments, false)
}

fn push_chosen(
    alias: Option<EpochIdentity>,
    segments: &Vec<SegmentMeta>,
    wanted: bool,
    out: &mut Vec<SegmentMeta>,
)
    ensures
        final(out)@ == old(out)@ + chosen(alias, segments@, wanted),
{
    let mut at: usize = 0;
    assert(chosen(alias, segments@.take(0), wanted) == Seq::<SegmentMeta>::empty());
    while at < segments.len()
        invariant
            at <= segments@.len(),
            out@ == old(out)@ + chosen(alias, segments@.take(at as int), wanted),
        decreases segments.len() - at,
    {
        let ghost longer = segments@.take(at + 1);
        assert(longer.drop_last() == segments@.take(at as int));
        assert(longer.last() == segments@[at as int]);
        if segment_is_published(alias, &segments[at]) == wanted {
            out.push(segments[at]);
        }
        at = at + 1;
        assert(out@ == old(out)@ + chosen(alias, segments@.take(at as int), wanted));
    }
    assert(segments@.take(at as int) == segments@);
}

/// The failure of a sum of mapped bytes that does not fit.
pub open spec fn is_mapped_overflow(error: StoreError) -> bool {
    error matches StoreError::Statistics { component, source } && component == "mapped bytes"
        && source.message@ == "mapped byte count overflow"@ && source.kind
        == IoErrorKind::Other
}

/// Sum of the first `n` numbers.
pub open spec fn total(bytes: Seq<u64>, n: nat) -> nat
    decreases n,
{
    if n == 0 {
        0
    } else {
        total(bytes, (n - 1) as nat) + bytes[n - 1] as nat
    }
}

proof fn lemma_total_grows(bytes: Seq<u64>, n: nat, end: nat)
    requires
        n <= end <= bytes.len(),
    ensures
        total(bytes, n) <= total(bytes, end),
    decreases end - n,
{
    if n < end {
        lemma_total_grows(bytes, n, (end - 1) as nat);
    }
}

/// Adds the mapped bytes of every segment.
pub fn mapped_total(bytes: &Vec<u64>) -> (result: Result<u64, StoreError>)
    ensures
        match result {
            Ok(sum) => sum == total(bytes@, bytes@.len()),
            Err(error) => total(bytes@, bytes@.len()) > u64::MAX && is_mapped_overflow(error),
        },
{
    let mut sum: u64 = 0;
    let mut at: usize = 0;
    while at < bytes.len()
        invariant
            at <= bytes@.len(),
            sum == total(bytes@, at as nat),
        decreases bytes.len() - at,
    {
        match sum.checked_add(bytes[at]) {
            Some(next) => {
                sum = next;
            },
            None => {
                proof {
                    lemma_total_grows(bytes@, (at + 1) as nat, bytes@.len());
                }
                return Err(
                    StoreError::Statistics {
                        component: "mapped bytes",
                        source: IoError::other("mapped byte count overflow"),
                    },
                );
            },
        }
        at = at + 1;
    }
    Ok(sum)
}

/// The first registered epoch with the alias's identity, from `at` on.
pub open spec fn registered(
    epochs: Seq<EpochMeta>,
    alias: EpochIdentity,
    at: nat,
) -> Option<EpochMeta>
    decreases epochs.len() - at,
{
    if at >= epochs.len() {
        None
    } else if epochs[at as int].identity == alias {
        Some(epochs[at as int])
    } else {
        registered(epochs, alias, at + 1)
    }
}

/// The traversal profile that a manifest publishes.
pub open spec fn published_profile(alias: Option<EpochIdentity>, epochs: Seq<EpochMeta>) -> Result<
    GraphSearchProfile,
    GraphProfileError,
> {
    match alias {
        None => Err(GraphProfileError::EpochUnstamped),
        Some(epoch) => match registered(epochs, epoch, 0) {
            None => Err(GraphProfileError::EpochNotRegistered { epoch }),
            Some(meta) => meta.profile,
        },
    }
}

/// The traversal profile that a manifest publishes: that of the aliased epoch,
/// which has to be stamped and registered.
pub fn manifest_graph_profile(alias: Option<EpochIdentity>, epochs: &Vec<EpochMeta>) -> (result:
    Result<GraphSearchProfile, GraphProfileError>)
    ensures
        result == published_profile(alias, epochs@),
{
    let epoch = match alias {
        Some(epoch) => epoch,
        None => {
            return Err(GraphProfileError::EpochUnstamped);
        },
    };
    let mut at: usize = 0;
    while at < epochs.len()
        invariant
            at <= epochs@.len(),
            alias == Some(epoch),
            registered(epochs@, epoch, 0) == registered(epochs@, epoch, at as nat),
        decreases epochs.len() - at,
    {
        if epochs[at].identity == epoch {
            return epochs[at].profile;
        }
        at = at + 1;
    }
    Err(GraphProfileError::EpochNotRegistered { epoch })
}

/// One atomically published generation.
#[derive(Debug)]
pub struct PublishedSnapshot {
    pub generation: u64,
    pub absorbed_through: u64,
    pub epoch_alias: Option<EpochIdentity>,
    pub graph_profile: Result<GraphSearchProfile, GraphProfileError>,
    pub schema: Schema,
    /// Published segments first.
    pub segments: Vec<SegmentMeta>,
    pub query_segment_count: usize,
    pub mapped_bytes: u64,
    /// Flag that close cancels readers by.
    pub flag: usize,
}

impl PublishedSnapshot {
    /// The published segments are the front part.
    pub open spec fn wf(self) -> bool {
        &&& self.query_segment_count <= self.segments@.len()
        &&& forall|i: int|
            0 <= i < self.query_segment_count ==> published(
                self.epoch_alias,
                #[trigger] self.segments@[i],
            )
        &&& forall|i: int|
            self.query_segment_count <= i < self.segments@.len() ==> !published(
                self.epoch_alias,
                #[trigger] self.segments@[i],
            )
    }

    /// Whether this is the snapshot without segments at a generation.
    pub open spec fn is_empty_at(self, generation: u64, plain: Schema) -> bool {
        &&& self.wf()
        &&& self.generation == generation
        &&& self.absorbed_through == 0
        &&& self.epoch_alias is None
        &&& self.graph_profile == Err::<GraphSearchProfile, GraphProfileError>(
            GraphProfileError::EpochUnstamped,
        )
        &&& self.schema == plain
        &&& self.segments@ == Seq::<SegmentMeta>::empty()
        &&& self.query_segment_count == 0
        &&& self.mapped_bytes == 0
    }

    /// A snapshot without segments; `plain` is the schema of a store without user
    /// columns.
    pub fn empty(generation: u64, plain: Schema, flags: &mut StopFlags) -> (snapshot:
        PublishedSnapshot)
        ensures
            snapshot.is_empty_at(generation, plain),
            snapshot.on_board(final(flags)@),
            snapshot.flag == old(flags)@.len(),
            final(flags)@ == old(flags)@.push(StopState::Active),
    {
        PublishedSnapshot {
            generation,
            absorbed_through: 0,
            epoch_alias: None,
            graph_profile: Err(GraphProfileError::EpochUnstamped),
            schema: plain,
            segments: Vec::new(),
            query_segment_count: 0,
            mapped_bytes: 0,
            flag: flags.add_flag(),
        }
    }

    /// Whether this is the snapshot of a manifest whose segments map `mapped`
    /// bytes each.
    pub open spec fn publishes(self, manifest: Manifest, mapped: Seq<u64>) -> bool {
        &&& self.wf()
        &&& self.generation == manifest.generation
        &&& self.absorbed_through == manifest.log_seq
        &&& self.epoch_alias == manifest.epoch_alias
        &&& self.graph_profile == published_profile(manifest.epoch_alias, manifest.epochs@)
        &&& self.schema == manifest.schema
        &&& self.segments@ == opening_order(manifest.epoch_alias, manifest.segments@)
        &&& self.query_segment_count == chosen(
            manifest.epoch_alias,
            manifest.segments@,
            true,
        ).len()
        &&& self.mapped_bytes == total(mapped, mapped.len())
    }

    /// What opening a manifest comes to: its segments are opened first, then
    /// their mapped bytes add up, then the sum is reserved.
    pub open spec fn opens(
        manifest: Manifest,
        opened: Result<Vec<u64>, StoreError>,
        reserved: Result<(), StoreError>,
        before: Seq<StopState>,
        after: Seq<StopState>,
        result: Result<PublishedSnapshot, StoreError>,
    ) -> bool {
        match opened {
            Err(error) => result == Err::<PublishedSnapshot, StoreError>(error) && after == before,
            Ok(mapped) => if total(mapped@, mapped@.len()) > u64::MAX {
                &&& result matches Err(error) && is_mapped_overflow(error)
                &&& after == before
            } else {
                match reserved {
                    Err(error) => {
                        &&& result == Err::<PublishedSnapshot, StoreError>(error)
                        &&& after == before
                    },
                    Ok(_) => {
                        &&& result matches Ok(snapshot) && snapshot.publishes(manifest, mapped@)
                            && snapshot.flag == before.len()
                        &&& after == before.push(StopState::Active)
                    },
                }
            },
        }
    }

    /// Opens the snapshot of a manifest. `opened` holds the bytes that each
    /// segment maps, in opening order, or why the first that could not be opened
    /// was not; `reserved` is whether the ceilings take the sum.
    pub fn from_manifest(
        manifest: Manifest,
        opened: Result<Vec<u64>, StoreError>,
        reserved: Result<(), StoreError>,
        flags: &mut StopFlags,
    ) -> (result: Result<PublishedSnapshot, StoreError>)
        ensures
            Self::opens(manifest, opened, reserved, old(flags)@, final(flags)@, result),
            result matches Ok(snapshot) ==> snapshot.on_board(final(flags)@),
    {
        let mapped = match opened {
            Ok(mapped) => mapped,
            Err(error) => {
                return Err(error);
            },
        };
        let mapped_bytes: u64 = match mapped_total(&mapped) {
            Ok(bytes) => bytes,
            Err(error) => {
                return Err(error);
            },
        };
        if let Err(error) = reserved {
            return Err(error);
        }
        let alias = manifest.epoch_alias;
        let mut segments: Vec<SegmentMeta> = Vec::with_capacity(manifest.segments.len());
        push_chosen(alias, &manifest.segments, true, &mut segments);
        assert(segments@ == chosen(alias, manifest.segments@, true));
        let query_segment_count: usize = segments.len();
        push_chosen(alias, &manifest.segments, false, &mut segments);
        let graph_profile = manifest_graph_profile(alias, &manifest.epochs);
        proof {
            lemma_chosen_are_chosen(alias, manifest.segments@, true);
            lemma_chosen_are_chosen(alias, manifest.segments@, false);
            let front = chosen(alias, manifest.segments@, true);
            let back = chosen(alias, manifest.segments@, false);
            assert forall|i: int| front.len() <= i < segments@.len() implies !published(
                alias,
                #[trigger] segments@[i],
            ) by {
                assert(segments@[i] == back[i - front.len()]);
            }
        }
        Ok(
            PublishedSnapshot {
                generation: manifest.generation,
                absorbed_through: manifest.log_seq,
                epoch_alias: alias,
                graph_profile,
                schema: manifest.schema,
                segments,
                query_segment_count,
                mapped_bytes,
                flag: flags.add_flag(),
            },
        )
    }

    /// Loads the snapshot of a store directory from what was `read` of it; a
    /// directory without a manifest has the empty snapshot with the `plain` schema.
    pub fn load(directory: &str, read: ManifestRead, plain: Schema, flags: &mut StopFlags) -> (
    result: Result<PublishedSnapshot, StoreError>)
        ensures
            result matches Ok(snapshot) ==> snapshot.on_board(final(flags)@),
            match read {
                ManifestRead::Unopened(source) => if source.kind == IoErrorKind::NotFound {
                    &&& result matches Ok(snapshot) && snapshot.is_empty_at(0, plain) && snapshot.flag
                        == old(flags)@.len()
                    &&& final(flags)@ == old(flags)@.push(StopState::Active)
                } else {
                    &&& result matches Err(StoreError::Io { path, source: cause }) && path@
                        == joined(directory@, MANIFEST_FILE@) && cause == source
                    &&& final(flags)@ == old(flags)@
                },
                ManifestRead::NoLog(text) => {
                    &&& result == Err::<PublishedSnapshot, StoreError>(StoreError::Wal(text))
                    &&& final(flags)@ == old(flags)@
                },
                ManifestRead::Invalid(error) => {
                    &&& result == Err::<PublishedSnapshot, StoreError>(StoreError::Manifest(error))
                    &&& final(flags)@ == old(flags)@
                },
                ManifestRead::Read { manifest, opened, reserved } => Self::opens(
                    manifest,
                    opened,
                    reserved,
                    old(flags)@,
                    final(flags)@,
                    result,
                ),
            },
    {
        match read {
            ManifestRead::Unopened(source) => if source.kind == IoErrorKind::NotFound {
                Ok(PublishedSnapshot::empty(0, plain, flags))
            } else {
                Err(StoreError::Io { path: join(directory, MANIFEST_FILE), source })
            },
            ManifestRead::NoLog(text) => Err(StoreError::Wal(text)),
            ManifestRead::Invalid(error) => Err(StoreError::Manifest(error)),
            ManifestRead::Read { manifest, opened, reserved } => PublishedSnapshot::from_manifest(
                manifest,
                opened,
                reserved,
                flags,
            ),
        }
    }

    /// The manifest generation published with these segments.
    pub fn generation(&self) -> (generation: u64)
        ensures
            generation == self.generation,
    {
        self.generation
    }

    /// The segments that belong to the published epoch.
    pub fn segments(&self) -> (segments: Vec<SegmentMeta>)
        requires
            self.wf(),
        ensures
            segments@ == self.segments@.take(self.query_segment_count as int),
    {
        let mut segments: Vec<SegmentMeta> = Vec::with_capacity(self.query_segment_count);
        let mut at: usize = 0;
        while at < self.query_segment_count
            invariant
                at <= self.query_segment_count <= self.segments@.len(),
                segments@ == self.segments@.take(at as int),
            decreases self.query_segment_count - at,
        {
            segments.push(self.segments[at]);
            at = at + 1;
            assert(segments@ == self.segments@.take(at as int));
        }
        segments
    }

    /// Every segment of the manifest, published ones first.
    pub fn all_segments(&self) -> (segments: &Vec<SegmentMeta>)
        ensures
            *segments == self.segments,
    {
        &self.segments
    }

    /// Whether the flag that close cancels readers by is on a board, in a state of
    /// its own.
    pub open spec fn on_board(self, flags: Seq<StopState>) -> bool {
        self.flag < flags.len() && flags[self.flag as int] != StopState::TimedOut
    }

    /// Cancels every reader of this snapshot.
    pub fn cancel_readers(&self, flags: &mut StopFlags)
        requires
            self.on_board(old(flags)@),
        ensures
            final(flags)@ == settled(old(flags)@, self.flag, StopState::Cancelled),
            final(flags)@[self.flag as int] == StopState::Cancelled,
    {
        flags.settle(self.flag, StopState::Cancelled);
    }

    /// What draining does next.
    pub open spec fn spec_drain_step(
        self,
        flags: Seq<StopState>,
        readers: u64,
        now: u128,
        deadline: Option<u128>,
    ) -> DrainStep {
        if readers == 0 {
            DrainStep::Drained
        } else if state_of(flags, self.flag) == StopState::Cancelled {
            DrainStep::WaitForRelease
        } else {
            match deadline {
                Some(at) => if now < at {
                    DrainStep::WaitUpTo((at - now) as u128)
                } else {
                    DrainStep::CancelReaders
                },
                None => DrainStep::CancelReaders,
            }
        }
    }

    /// Decides what draining does next: while readers hold the snapshot it
    /// waits out the grace period, then it cancels them, and then it waits for
    /// them to let go. A grace period out of the clock's range is over at once.
    pub fn drain_step(
        &self,
        flags: &StopFlags,
        readers: u64,
        now: u128,
        deadline: Option<u128>,
    ) -> (step: DrainStep)
        ensures
            step == self.spec_drain_step(flags@, readers, now, deadline),
    {
        if readers == 0 {
            return DrainStep::Drained;
        }
        if flags.state(self.flag) == StopState::Cancelled {
            return DrainStep::WaitForRelease;
        }
        match deadline {
            Some(at) => {
                if now < at {
                    DrainStep::WaitUpTo(at - now)
                } else {
                    DrainStep::CancelReaders
                }
            },
            None => DrainStep::CancelReaders,
        }
    }
}

proof fn lemma_chosen_are_chosen(
    alias: Option<EpochIdentity>,
    segments: Seq<SegmentMeta>,
    wanted: bool,
)
    ensures
        forall|i: int|
            0 <= i < chosen(alias, segments, wanted).len() ==> published(
                alias,
                #[trigger] chosen(alias, segments, wanted)[i],
            ) == wanted,
        chosen(alias, segments, wanted).len() <= segments.len(),
    decreases segments.len(),
{
    if segments.len() > 0 {
        lemma_chosen_are_chosen(alias, segments.drop_last(), wanted);
    }
}

/// What draining does next.
#[derive(Clone, Copy, Debug, PartialEq, Eq, Structural)]
pub enum DrainStep {
    /// No reader holds the snapshot.
    Drained,
    /// Wait for a reader to let go, this many nanoseconds at most.
    WaitUpTo(u128),
    /// Cancel the readers that are left.
    CancelReaders,
    /// Wait for cancelled readers to let go.
    WaitForRelease,
}

/// The instant at which a grace period is over; none where it is out of range.
pub fn drain_deadline(now: u128, grace: u128) -> (deadline: Option<u128>)
    ensures
        deadline == if now + grace <= LATEST_INSTANT {
            Some((now + grace) as u128)
        } else {
            None
        },
{
    match now.checked_add(grace) {
        Some(at) => {
            if at <= LATEST_INSTANT {
                Some(at)
            } else {
                None
            }
        },
        None => None,
    }
}

/// One admitted read's hold on its snapshot.
#[derive(Clone, Copy, Debug, PartialEq, Eq, Structural)]
pub struct SnapshotLease {
    pub generation: u64,
    pub flag: usize,
}

impl SnapshotLease {
    /// A lease at the snapshot's own generation.
    pub fn new(snapshot: &PublishedSnapshot) -> (lease: SnapshotLease)
        ensures
            lease == (SnapshotLease { generation: snapshot.generation, flag: snapshot.flag }),
    {
        SnapshotLease { generation: snapshot.generation, flag: snapshot.flag }
    }

    /// A lease at an active-state generation.
    pub fn new_at(snapshot: &PublishedSnapshot, generation: u64) -> (lease: SnapshotLease)
        ensures
            lease == (SnapshotLease { generation, flag: snapshot.flag }),
    {
        SnapshotLease { generation, flag: snapshot.flag }
    }

    /// The active-state generation pinned when this lease was admitted.
    pub fn generation(&self) -> (generation: u64)
        ensures
            generation == self.generation,
    {
        self.generation
    }

    /// Whether close has cancelled this read.
    pub open spec fn spec_is_cancelled(self, flags: Seq<StopState>) -> bool {
        state_of(flags, self.flag) == StopState::Cancelled
    }

    /// Whether close has cancelled this read.
    pub fn is_cancelled(&self, flags: &StopFlags) -> (result: bool)
        ensures
            result == self.spec_is_cancelled(flags@),
    {
        flags.state(self.flag) == StopState::Cancelled
    }

    /// Rejects work after close has cancelled this read.
    pub fn check_active(&self, flags: &StopFlags) -> (result: Result<(), StoreError>)
        ensures
            result == if self.spec_is_cancelled(flags@) {
                Err(StoreError::ReadCancelled)
            } else {
                Ok(())
            },
    {
        if self.is_cancelled(flags) {
            Err(StoreError::ReadCancelled)
        } else {
            Ok(())
        }
    }

    /// Whether a wait for close cancellation is over.
    pub fn wait_for_close_cancellation(&self, flags: &StopFlags) -> (over: bool)
        ensures
            over == self.spec_is_cancelled(flags@),
    {
        self.is_cancelled(flags)
    }
}

/// Every segment of a manifest is opened exactly once, whichever epoch it
/// belongs to.
pub proof fn lemma_opening_order_is_a_permutation(
    alias: Option<EpochIdentity>,
    segments: Seq<SegmentMeta>,
)
    ensures
        opening_order(alias, segments).len() == segments.len(),
        opening_order(alias, segments).to_multiset() == segments.to_multiset(),
    decreases segments.len(),
{
    broadcast use vstd::seq_lib::group_to_multiset_ensures;

    if segments.len() == 0 {
        assert(opening_order(alias, segments) == segments);
    } else {
        let shorter = segments.drop_last();
        let last = segments.last();
        lemma_opening_order_is_a_permutation(alias, shorter);
        assert(segments == shorter.push(last));
        let front = chosen(alias, shorter, true);
        let back = chosen(alias, shorter, false);
        if published(alias, last) {
            vstd::seq_lib::lemma_multiset_commutative(front, back);
            vstd::seq_lib::lemma_multiset_commutative(front.push(last), back);
            assert(opening_order(alias, segments) == front.push(last) + back);
        } else {
            assert(opening_order(alias, segments) == (front + back).push(last));
        }
        assert(opening_order(alias, segments).to_multiset() =~= segments.to_multiset());
    }
}

/// Readers are cancelled only behind the grace period, and a snapshot counts as
/// drained only when no reader holds it.
pub proof fn lemma_drain_keeps_its_promises(
    snapshot: PublishedSnapshot,
    flags: Seq<StopState>,
    readers: u64,
    now: u128,
    deadline: u128,
)
    ensures
        snapshot.spec_drain_step(flags, readers, now, Some(deadline)) == DrainStep::CancelReaders
            ==> now >= deadline,
        snapshot.spec_drain_step(flags, readers, now, Some(deadline)) == DrainStep::Drained
            <==> readers == 0,
{
}

} // verus!
