//! What a handle and its snapshots do over their lifetime, call by call.

use crate::candidates::ScanOutcome;
use crate::control::StopFlags;
use crate::control::StopState;
use crate::corpus::SegmentFacts;
use crate::error::GraphProfileError;
use crate::error::IoErrorKind;
use crate::error::ManifestError;
use crate::error::QueryError;
use crate::error::Schema;
use crate::error::SegmentError;
use crate::error::StoreError;
use crate::ids::EpochIdentity;
use crate::lexical_laws::sum_of;
use crate::options::GraphSearchProfile;
use crate::options::SearchOptions;
use crate::options::SearchTier;
use crate::options::StoreState;
use crate::snapshot::chosen;
use crate::snapshot::drain_deadline;
use crate::snapshot::manifest_graph_profile;
use crate::snapshot::mapped_total;
use crate::snapshot::registered;
use crate::snapshot::total;
use crate::snapshot::DrainStep;
use crate::snapshot::EpochMeta;
use crate::snapshot::Manifest;
use crate::snapshot::ManifestRead;
use crate::snapshot::PublishedSnapshot;
use crate::snapshot::SegmentMeta;
use crate::snapshot::SnapshotLease;
use crate::store::needs_query_pool;
use crate::store::truncate_scan;
use crate::store::CloseEntry;
use crate::store::InMemorySegment;
use crate::store::InMemorySegmentFactors;
use crate::store::PoolStart;
use crate::store::PreparedSegment;
use crate::store::SealTicket;
use crate::store::Store;
use vstd::prelude::*;

verus! {

/// Whether queries under an alias read a segment: it was built under the embedding that
/// the alias names, or there is no alias.
pub open spec fn belongs(alias: Option<EpochIdentity>, segment: SegmentMeta) -> bool {
    alias is None || segment.epoch_id == Some(alias->0.embedding)
}

proof fn lemma_chosen_segments_belong(alias: Option<EpochIdentity>, segments: Seq<SegmentMeta>)
    ensures
        chosen(alias, segments, true) == segments.filter(|s: SegmentMeta| belongs(alias, s)),
        chosen(alias, segments, false) == segments.filter(|s: SegmentMeta| !belongs(alias, s)),
    decreases segments.len(),
{
    reveal(Seq::filter);
    if segments.len() > 0 {
        lemma_chosen_segments_belong(alias, segments.drop_last());
    }
}

/// Segments are opened in the manifest's order, those that queries read before the
/// others, and none is left out.
pub proof fn lemma_segments_are_opened_in_order(manifest: &Manifest, segments: Vec<SegmentMeta>)
    requires
        call_ensures(Manifest::opening_order, (manifest,), segments),
    ensures
        segments@ == manifest.segments@.filter(|s: SegmentMeta| belongs(manifest.epoch_alias, s))
            + manifest.segments@.filter(|s: SegmentMeta| !belongs(manifest.epoch_alias, s)),
        segments@.to_multiset() == manifest.segments@.to_multiset(),
{
    lemma_chosen_segments_belong(manifest.epoch_alias, manifest.segments@);
    crate::snapshot::lemma_opening_order_is_a_permutation(
        manifest.epoch_alias,
        manifest.segments@,
    );
}

proof fn lemma_totals_are_sums(bytes: Seq<u64>, n: nat)
    requires
        n <= bytes.len(),
    ensures
        total(bytes, n) == sum_of(bytes.take(n as int)),
    decreases n,
{
    if n > 0 {
        lemma_totals_are_sums(bytes, (n - 1) as nat);
        assert(bytes.take(n as int).drop_last() =~= bytes.take(n - 1));
    }
}

/// The mapped bytes of a snapshot are the sum of what its segments map.
pub proof fn lemma_mapped_bytes_are_summed(bytes: &Vec<u64>, result: Result<u64, StoreError>)
    requires
        call_ensures(mapped_total, (bytes,), result),
    ensures
        match result {
            Ok(sum) => sum == sum_of(bytes@),
            Err(_) => sum_of(bytes@) > u64::MAX,
        },
{
    lemma_totals_are_sums(bytes@, bytes@.len());
    assert(bytes@.take(bytes@.len() as int) =~= bytes@);
}

/// The profile of a manifest is that of the first epoch that is registered under its
/// alias; without an alias or such an epoch there is none.
pub proof fn lemma_the_profile_is_that_of_the_alias(
    alias: Option<EpochIdentity>,
    epochs: &Vec<EpochMeta>,
    result: Result<GraphSearchProfile, GraphProfileError>,
    at: int,
)
    requires
        call_ensures(manifest_graph_profile, (alias, epochs), result),
    ensures
        alias is None ==> result is Err,
        alias matches Some(epoch) && (forall|i: int|
            0 <= i < epochs@.len() ==> (#[trigger] epochs@[i]).identity != epoch) ==> result
            == Err::<GraphSearchProfile, GraphProfileError>(
            GraphProfileError::EpochNotRegistered { epoch: alias->0 },
        ),
        alias is Some && 0 <= at < epochs@.len() && epochs@[at].identity == alias->0 && (forall|
            i: int,
        |
            0 <= i < at ==> (#[trigger] epochs@[i]).identity != alias->0) ==> result
            == epochs@[at].profile,
{
    if alias is Some {
        lemma_the_first_epoch_is_found(epochs@, alias->0, 0, at);
    }
}

proof fn lemma_the_first_epoch_is_found(
    epochs: Seq<EpochMeta>,
    alias: EpochIdentity,
    from: nat,
    at: int,
)
    requires
        from <= epochs.len(),
    ensures
        (forall|i: int| from <= i < epochs.len() ==> (#[trigger] epochs[i]).identity != alias)
            ==> registered(epochs, alias, from) is None,
        from <= at < epochs.len() && epochs[at].identity == alias && (forall|i: int|
            from <= i < at ==> (#[trigger] epochs[i]).identity != alias) ==> registered(
            epochs,
            alias,
            from,
        ) == Some(epochs[at]),
    decreases epochs.len() - from,
{
    if from < epochs.len() {
        if epochs[from as int].identity != alias {
            lemma_the_first_epoch_is_found(epochs, alias, from + 1, at);
        }
    }
}

/// Whether a snapshot shows a manifest: its stamps, and its segments with those that
/// queries read in front.
pub open spec fn shows(snapshot: PublishedSnapshot, manifest: Manifest) -> bool {
    let read = manifest.segments@.filter(|s: SegmentMeta| belongs(manifest.epoch_alias, s));
    &&& snapshot.generation == manifest.generation
    &&& snapshot.absorbed_through == manifest.log_seq
    &&& snapshot.epoch_alias == manifest.epoch_alias
    &&& snapshot.schema == manifest.schema
    &&& snapshot.query_segment_count == read.len()
    &&& snapshot.segments@.take(read.len() as int) == read
    &&& snapshot.segments@.to_multiset() == manifest.segments@.to_multiset()
}

/// A snapshot that is built of a manifest shows that manifest; its mapped bytes are
/// those of its segments, and its flag is its own.
pub proof fn lemma_a_snapshot_shows_its_manifest(
    manifest: Manifest,
    opened: Result<Vec<u64>, StoreError>,
    reserved: Result<(), StoreError>,
    flags: &mut StopFlags,
    result: Result<PublishedSnapshot, StoreError>,
)
    requires
        call_ensures(PublishedSnapshot::from_manifest, (manifest, opened, reserved, flags), result),
    ensures
        result matches Ok(snapshot) ==> {
            &&& shows(snapshot, manifest)
            &&& opened is Ok && reserved is Ok
            &&& snapshot.mapped_bytes == sum_of(opened->Ok_0@)
            &&& final(flags)@ == old(flags)@.push(StopState::Active)
            &&& snapshot.flag == old(flags)@.len()
        },
        opened is Ok && reserved is Ok && sum_of(opened->Ok_0@) <= u64::MAX ==> result is Ok,
        result is Err ==> final(flags)@ == old(flags)@,
{
    lemma_chosen_segments_belong(manifest.epoch_alias, manifest.segments@);
    crate::snapshot::lemma_opening_order_is_a_permutation(
        manifest.epoch_alias,
        manifest.segments@,
    );
    if let Ok(mapped) = opened {
        lemma_totals_are_sums(mapped@, mapped@.len());
        assert(mapped@.take(mapped@.len() as int) =~= mapped@);
    }
    if let Ok(snapshot) = result {
        let read = chosen(manifest.epoch_alias, manifest.segments@, true);
        assert(snapshot.segments@.take(read.len() as int) =~= read);
    }
}

/// What is loaded is what was read: a manifest that is not there gives an empty snapshot
/// at generation zero, any other failure is reported, and a manifest that was read is
/// shown.
pub proof fn lemma_a_loaded_snapshot_shows_what_was_read(
    directory: &str,
    read: ManifestRead,
    plain: Schema,
    flags: &mut StopFlags,
    result: Result<PublishedSnapshot, StoreError>,
)
    requires
        call_ensures(PublishedSnapshot::load, (directory, read, plain, flags), result),
    ensures
        read matches ManifestRead::Unopened(source) ==> {
            &&& result is Ok <==> source.kind == IoErrorKind::NotFound
            &&& result matches Ok(snapshot) ==> snapshot.generation == 0
                && snapshot.segments@.len() == 0 && snapshot.epoch_alias is None
                && snapshot.mapped_bytes == 0 && snapshot.absorbed_through == 0
                && snapshot.query_segment_count == 0 && snapshot.schema == plain
        },
        read is NoLog || read is Invalid ==> result is Err,
        read matches ManifestRead::Read { manifest, .. } ==> (result matches Ok(snapshot) ==> shows(
            snapshot,
            manifest,
        )),
        result is Err ==> final(flags)@ == old(flags)@,
        result matches Ok(snapshot) ==> snapshot.flag == old(flags)@.len() && final(flags)@
            == old(flags)@.push(StopState::Active),
{
    if let ManifestRead::Read { manifest, .. } = read {
        lemma_chosen_segments_belong(manifest.epoch_alias, manifest.segments@);
        crate::snapshot::lemma_opening_order_is_a_permutation(
            manifest.epoch_alias,
            manifest.segments@,
        );
        if let Ok(snapshot) = result {
            let front = chosen(manifest.epoch_alias, manifest.segments@, true);
            assert(snapshot.segments@.take(front.len() as int) =~= front);
        }
    }
}

/// Queries read the front segments of a snapshot, in order, and no other.
pub proof fn lemma_queries_read_the_front_segments(
    snapshot: &PublishedSnapshot,
    segments: Vec<SegmentMeta>,
)
    requires
        call_ensures(PublishedSnapshot::segments, (snapshot,), segments),
        snapshot.query_segment_count <= snapshot.segments@.len(),
    ensures
        segments@.len() == snapshot.query_segment_count,
        forall|i: int|
            0 <= i < segments@.len() ==> #[trigger] segments@[i] == snapshot.segments@[i],
{
}

/// What draining does next: a snapshot without readers is drained, readers are cancelled
/// once their time is up and not before, and cancelled readers are waited for.
pub proof fn lemma_readers_keep_their_time(
    snapshot: &PublishedSnapshot,
    flags: &StopFlags,
    readers: u64,
    now: u128,
    deadline: Option<u128>,
    step: DrainStep,
)
    requires
        call_ensures(
            PublishedSnapshot::drain_step,
            (snapshot, flags, readers, now, deadline),
            step,
        ),
        snapshot.flag < flags@.len(),
    ensures
        step == DrainStep::Drained <==> readers == 0,
        step == DrainStep::WaitForRelease <==> readers > 0 && flags@[snapshot.flag as int]
            == StopState::Cancelled,
        step == DrainStep::CancelReaders <==> readers > 0 && flags@[snapshot.flag as int]
            != StopState::Cancelled && (deadline is None || now >= deadline->0),
        step matches DrainStep::WaitUpTo(left) ==> deadline is Some && now + left == deadline->0
            && left > 0,
{
}

/// Readers have their grace from now on, where the clock can name that instant.
pub proof fn lemma_the_drain_deadline_is_the_grace_from_now(
    now: u128,
    grace: u128,
    deadline: Option<u128>,
)
    requires
        call_ensures(drain_deadline, (now, grace), deadline),
    ensures
        deadline matches Some(at) ==> at == now + grace,
        deadline is None ==> now + grace > crate::clock::LATEST_INSTANT,
{
}

/// A lease is handed out by an open handle only. It carries the generation of the active
/// segment and the flag of the published snapshot.
pub proof fn lemma_a_lease_is_of_the_published_snapshot(
    store: &Store,
    result: Result<SnapshotLease, StoreError>,
)
    requires
        call_ensures(Store::snapshot, (store,), result),
    ensures
        result is Ok <==> store.state == StoreState::Open && store.active is Some
            && store.snapshot is Some,
        result matches Ok(lease) ==> lease.generation == store.active->0.generation && lease.flag
            == store.snapshot->0.flag,
        store.state == StoreState::Closing ==> result == Err::<SnapshotLease, StoreError>(
            StoreError::Closing,
        ),
        store.state == StoreState::Closed ==> result == Err::<SnapshotLease, StoreError>(
            StoreError::Closed,
        ),
{
}

/// A lexical query that is admitted is counted, one that is refused is not.
pub proof fn lemma_an_admitted_lexical_query_is_counted(
    store: &mut Store,
    result: Result<SnapshotLease, QueryError>,
)
    requires
        call_ensures(Store::admit_lexical_query, (store,), result),
        old(store).active_queries < u64::MAX,
    ensures
        result is Ok <==> old(store).state == StoreState::Open && old(store).active is Some && old(store).snapshot is Some,
        result matches Ok(lease) ==> {
            &&& final(store).active_queries == old(store).active_queries + 1
            &&& lease.flag == old(store).snapshot->0.flag
            &&& lease.generation == old(store).active->0.generation
            &&& final(store).snapshot == old(store).snapshot
            &&& final(store).accounting == old(store).accounting
        },
        result is Err ==> *final(store) == *old(store),
{
}

/// A query that ends is counted out again, and nothing else of the handle changes.
pub proof fn lemma_a_finished_query_is_counted_out(store: &mut Store)
    requires
        call_ensures(Store::query_finished, (store,), ()),
        old(store).active_queries > 0,
    ensures
        final(store).active_queries == old(store).active_queries - 1,
        *final(store) == (Store { active_queries: final(store).active_queries, ..*old(store) }),
{
}

/// A vector search is admitted with a lease of the published snapshot, is counted, and
/// starts the pool where one of its sources is scanned by it.
pub proof fn lemma_an_admitted_search_is_counted(
    store: &mut Store,
    options: SearchOptions,
    segments: &Vec<SegmentFacts>,
    start: PoolStart,
    pooled: bool,
    result: Result<(SnapshotLease, bool), QueryError>,
)
    requires
        call_ensures(Store::admit_vector_search, (store, options, segments, start), result),
        old(store).active is Some,
        call_ensures(needs_query_pool, (options, segments, old(store).active->0.rows), pooled),
        old(store).active_queries < u64::MAX,
    ensures
        result is Ok <==> old(store).state == StoreState::Open && old(store).snapshot is Some && (
        pooled ==> old(store).query_pool || start is Started),
        result matches Ok(answer) ==> {
            &&& answer.1 == pooled
            &&& answer.0.generation == old(store).active->0.generation
            &&& answer.0.flag == old(store).snapshot->0.flag
            &&& final(store).active_queries == old(store).active_queries + 1
            &&& final(store).query_pool <==> old(store).query_pool || pooled
            &&& final(store).snapshot == old(store).snapshot
        },
        result is Err ==> *final(store) == *old(store),
{
}

/// A search needs the pool for active rows, and for segments that its tier scans: every
/// one of a scan, and of an automatic search those without a graph.
pub proof fn lemma_the_pool_is_for_scans(
    options: SearchOptions,
    segments: &Vec<SegmentFacts>,
    active_rows: usize,
    result: bool,
)
    requires
        call_ensures(needs_query_pool, (options, segments, active_rows), result),
    ensures
        active_rows > 0 ==> result,
        options.tier == Some(SearchTier::Scan) ==> result,
        active_rows == 0 && (options.tier == Some(SearchTier::Exact) || (options.tier matches Some(
            SearchTier::Graph(_),
        ))) ==> !result,
        active_rows == 0 && (options.tier is None || options.tier == Some(SearchTier::Auto)) ==> (
        result <==> exists|i: int|
            0 <= i < segments@.len() && !(#[trigger] segments@[i]).has_graph),
{
}

/// A scan is cut behind its first `k` rows, and those stay as they are.
pub proof fn lemma_a_scan_is_cut_behind_its_first_rows(outcome: &mut ScanOutcome, k: usize)
    requires
        call_ensures(truncate_scan, (outcome, k), ()),
    ensures
        final(outcome).candidates@.len() == if old(outcome).candidates@.len() <= k {
            old(outcome).candidates@.len() as int
        } else {
            k as int
        },
        forall|i: int|
            0 <= i < final(outcome).candidates@.len() ==> #[trigger] final(outcome).candidates@[i]
                == old(outcome).candidates@[i],
        final(outcome).stats == old(outcome).stats,
{
}

/// A scan of a handle answers with the first `k` rows of what was scanned, and only
/// where the handle is open, has a snapshot and has a pool.
pub proof fn lemma_a_handle_answers_with_the_first_rows(
    store: &mut Store,
    start: PoolStart,
    scanned: Result<ScanOutcome, QueryError>,
    k: usize,
    result: Result<ScanOutcome, QueryError>,
)
    requires
        call_ensures(Store::top_k_with_options, (store, start, scanned, k), result),
    ensures
        result is Ok <==> old(store).state == StoreState::Open && old(store).snapshot is Some && (
        old(store).query_pool || start is Started) && scanned is Ok,
        result matches Ok(kept) ==> {
            let rows = scanned->Ok_0.candidates@;
            &&& kept.candidates@.len() == if rows.len() <= k {
                rows.len() as int
            } else {
                k as int
            }
            &&& forall|i: int|
                0 <= i < kept.candidates@.len() ==> #[trigger] kept.candidates@[i] == rows[i]
            &&& kept.stats == scanned->Ok_0.stats
            &&& kept.worst_score == scanned->Ok_0.worst_score
        },
{
}

/// A publication replaces the snapshot. The generation never falls, the rows of the
/// active segment stay, and a handle that is not open takes none.
pub proof fn lemma_a_publication_replaces_the_snapshot(
    store: &mut Store,
    snapshot: PublishedSnapshot,
    result: Result<(), StoreError>,
)
    requires
        call_ensures(Store::publish_snapshot, (store, snapshot), result),
    ensures
        result is Ok <==> old(store).state == StoreState::Open && old(store).active is Some,
        result is Err ==> *final(store) == *old(store),
        result is Ok ==> {
            let (before, after) = (old(store).active->0, final(store).active->0);
            &&& final(store).snapshot == Some(snapshot)
            &&& final(store).active is Some
            &&& after.generation >= before.generation && after.generation >= snapshot.generation
            &&& after.generation == before.generation || after.generation == snapshot.generation
            &&& after.rows == before.rows
            &&& final(store).accounting == old(store).accounting
            &&& final(store).active_queries == old(store).active_queries
        },
{
}

/// The bytes of a segment's factors.
pub open spec fn factor_bytes(factors: InMemorySegmentFactors) -> u64 {
    match factors {
        InMemorySegmentFactors::Bit4(bytes) => bytes,
        InMemorySegmentFactors::Int8(bytes) => bytes,
    }
}

/// A segment that is prepared is charged byte by byte: its codes, factors and vectors.
/// One that is refused is not charged, and only a handle with the writer lock prepares.
pub proof fn lemma_a_prepared_segment_is_charged(
    store: &mut Store,
    segment: &InMemorySegment,
    result: Result<PreparedSegment, StoreError>,
)
    requires
        call_ensures(Store::prepare_segment, (store, segment), result),
    ensures
        result is Err ==> *final(store) == *old(store),
        old(store).state != StoreState::Open || !old(store).writer_lock ==> result is Err,
        result matches Ok(prepared) ==> {
            let bytes = segment.codes + factor_bytes(segment.factors) + segment.rescore;
            &&& prepared.handle == old(store).handle
            &&& prepared.codes == segment.codes
            &&& prepared.factors == factor_bytes(segment.factors)
            &&& prepared.rescore == segment.rescore
            &&& prepared.resident_bytes == bytes
            &&& final(store).accounting.resident == old(store).accounting.resident + bytes
            &&& final(store).accounting.temporary == old(store).accounting.temporary
            &&& final(store).accounting.budgets == old(store).accounting.budgets
            &&& final(store).snapshot == old(store).snapshot
            &&& final(store).active == old(store).active
        },
{
}

/// Preparing a segment and dropping it again leaves the handle's totals as they were: a
/// seal that is refused gives back what preparing charged.
pub proof fn lemma_a_refused_seal_gives_back_the_charge(
    store: &mut Store,
    later: &mut Store,
    segment: &InMemorySegment,
    prepared: PreparedSegment,
    refused: Result<SealTicket, StoreError>,
)
    requires
        call_ensures(
            Store::prepare_segment,
            (store, segment),
            Ok::<PreparedSegment, StoreError>(prepared),
        ),
        *old(later) == *final(store),
        call_ensures(Store::begin_seal, (later, &prepared), refused),
        refused is Err,
    ensures
        final(later).accounting.resident == old(store).accounting.resident,
        final(later).accounting.temporary == old(store).accounting.temporary,
{
}

/// A seal is admitted by the open handle that prepared the segment, with the writer
/// lock, and gets the generation behind the active one.
pub proof fn lemma_a_seal_gets_the_next_generation(
    store: &mut Store,
    segment: &PreparedSegment,
    result: Result<SealTicket, StoreError>,
)
    requires
        call_ensures(Store::begin_seal, (store, segment), result),
    ensures
        result is Ok <==> old(store).state == StoreState::Open && old(store).writer_lock
            && segment.handle == old(store).handle && old(store).active is Some && old(store).active->0.generation < u64::MAX,
        result matches Ok(ticket) ==> {
            &&& ticket.generation == old(store).active->0.generation + 1
            &&& ticket.epoch_alias == old(store).epoch_alias
            &&& old(store).epoch_alias is None ==> ticket.epoch_id is None
            &&& old(store).epoch_alias matches Some(alias) ==> ticket.epoch_id == Some(
                alias.embedding,
            )
            &&& *final(store) == *old(store)
        },
{
}

/// The manifest of a seal holds the new segment and no other, stamped with the ticket,
/// and queries under the ticket's alias read it.
pub proof fn lemma_a_sealed_manifest_holds_the_segment(
    store: &mut Store,
    before: &mut Store,
    ticket: SealTicket,
    segment: &PreparedSegment,
    written: Result<SegmentMeta, SegmentError>,
    schema: Schema,
    result: Result<Manifest, StoreError>,
)
    requires
        call_ensures(Store::begin_seal, (before, segment), Ok::<SealTicket, StoreError>(ticket)),
        call_ensures(Store::seal_manifest, (store, &ticket, segment, written, schema), result),
    ensures
        result is Ok <==> written is Ok,
        result matches Ok(manifest) ==> {
            let meta = written->Ok_0;
            &&& manifest.generation == ticket.generation
            &&& manifest.segments@.len() == 1
            &&& manifest.segments@[0].id == meta.id
            &&& manifest.segments@[0].row_count == meta.row_count
            &&& manifest.segments@[0].dims == meta.dims
            &&& manifest.segments@[0].scheme == meta.scheme
            &&& belongs(manifest.epoch_alias, manifest.segments@[0])
            &&& manifest.schema == schema
            &&& manifest.epoch_alias == ticket.epoch_alias
        },
{
}

/// A seal that ends well publishes the loaded snapshot at the ticket's generation. A
/// seal that fails publishes nothing. Either way the prepared bytes are given back.
pub proof fn lemma_a_seal_publishes_what_was_loaded(
    store: &mut Store,
    ticket: &SealTicket,
    segment: &PreparedSegment,
    committed: Result<(), ManifestError>,
    loaded: Result<PublishedSnapshot, StoreError>,
    result: Result<u64, StoreError>,
)
    requires
        call_ensures(Store::finish_seal, (store, ticket, segment, committed, loaded), result),
        segment.handle == old(store).handle,
        segment.resident_bytes <= old(store).accounting.resident,
    ensures
        result is Ok <==> committed is Ok && loaded is Ok,
        final(store).accounting.resident == old(store).accounting.resident
            - segment.resident_bytes,
        final(store).accounting.temporary == old(store).accounting.temporary,
        result matches Ok(generation) ==> {
            &&& generation == ticket.generation
            &&& final(store).snapshot == Some(loaded->Ok_0)
            &&& final(store).active is Some
            &&& final(store).active->0.generation == ticket.generation
            &&& final(store).active->0.rows == old(store).active->0.rows
        },
        result is Err ==> final(store).snapshot == old(store).snapshot && final(store).active
            == old(store).active,
{
}

/// Only the first caller of close tears the handle down; the others wait or are done.
pub proof fn lemma_one_caller_closes(store: &mut Store, entry: CloseEntry)
    requires
        call_ensures(Store::begin_close, (store,), entry),
    ensures
        entry == CloseEntry::Proceed <==> old(store).state == StoreState::Open,
        entry == CloseEntry::Wait <==> old(store).state == StoreState::Closing,
        entry == CloseEntry::Finished <==> old(store).state == StoreState::Closed,
        final(store).state != StoreState::Open,
        old(store).state != StoreState::Open ==> *final(store) == *old(store),
        final(store).snapshot == old(store).snapshot,
        final(store).writer_lock == old(store).writer_lock,
{
}

/// A handle that closes gives up its thread, then its snapshot, then its lock, each as
/// it was, and is closed behind them.
pub proof fn lemma_a_closing_handle_gives_up_all(
    first: &mut Store,
    second: &mut Store,
    third: &mut Store,
    fourth: &mut Store,
    running: bool,
    snapshot: Option<PublishedSnapshot>,
    held: bool,
    background: Result<(), StoreError>,
    result: Result<(), StoreError>,
)
    requires
        call_ensures(Store::take_background, (first,), running),
        *old(second) == *final(first),
        call_ensures(Store::take_snapshot, (second,), snapshot),
        *old(third) == *final(second),
        call_ensures(Store::take_writer_lock, (third,), held),
        *old(fourth) == *final(third),
        call_ensures(Store::finish_close, (fourth, background), result),
    ensures
        running == old(first).background,
        snapshot == old(first).snapshot,
        held == old(first).writer_lock,
        result == background,
        final(fourth).state == StoreState::Closed,
        !final(fourth).background && final(fourth).snapshot is None && !final(fourth).writer_lock,
        final(fourth).accounting == old(first).accounting,
        final(fourth).active_queries == old(first).active_queries,
{
}

/// A handle that is dropped is closed, holds nothing, and its readers are cancelled.
pub proof fn lemma_a_dropped_handle_cancels_its_readers(store: &mut Store, flags: &mut StopFlags)
    requires
        call_ensures(Store::close_best_effort, (store, flags), ()),
        old(store).state != StoreState::Closed,
        old(store).snapshot matches Some(snapshot) ==> snapshot.on_board(old(flags)@),
    ensures
        final(store).state == StoreState::Closed,
        !final(store).background && final(store).snapshot is None && !final(store).writer_lock,
        final(flags)@.len() == old(flags)@.len(),
        old(store).snapshot matches Some(snapshot) ==> final(flags)@[snapshot.flag as int]
            == StopState::Cancelled,
        forall|i: int|
            0 <= i < old(flags)@.len() && (old(store).snapshot matches Some(snapshot)
                ==> snapshot.flag != i) ==> #[trigger] final(flags)@[i] == old(flags)@[i],
{
}

/// A scan that is admitted holds the published snapshot, is counted and has a pool.
pub proof fn lemma_an_admitted_scan_is_counted(
    store: &mut Store,
    start: PoolStart,
    result: Result<SnapshotLease, QueryError>,
)
    requires
        call_ensures(Store::admit_scan, (store, start), result),
        old(store).active_queries < u64::MAX,
    ensures
        result is Ok <==> old(store).state == StoreState::Open && old(store).snapshot is Some && (
        old(store).query_pool || start is Started),
        result matches Ok(lease) ==> {
            &&& lease.generation == old(store).snapshot->0.generation
            &&& lease.flag == old(store).snapshot->0.flag
            &&& final(store).active_queries == old(store).active_queries + 1
            &&& final(store).query_pool
        },
        result is Err ==> *final(store) == *old(store),
{
}

/// The reachable segments of a store are all of its snapshot's, each under its own name
/// in the directory.
pub proof fn lemma_every_segment_is_reachable(
    store: &Store,
    directory: &str,
    names: &Vec<String>,
    result: Result<Vec<String>, StoreError>,
    i: int,
)
    requires
        call_ensures(Store::reachable_segments, (store, directory, names), result),
        store.snapshot is Some,
        names@.len() == store.snapshot->0.segments@.len(),
        0 <= i < names@.len(),
    ensures
        result matches Ok(paths) && {
            &&& paths@.len() == names@.len()
            &&& paths@[i]@.len() >= directory@.len() + names@[i]@.len()
            &&& paths@[i]@.take(directory@.len() as int) == directory@
            &&& paths@[i]@.skip(paths@[i]@.len() - names@[i]@.len()) == names@[i]@
        },
{
    let path = result->Ok_0@[i]@;
    assert(path.take(directory@.len() as int) =~= directory@);
    assert(path.skip(path.len() - names@[i]@.len()) =~= names@[i]@);
}

} // verus!
