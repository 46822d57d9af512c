//! What a handle charges, keeps and gives back, call by call.

use crate::accounting::Accounted;
use crate::accounting::AccountedCounter;
use crate::accounting::Accounting;
use crate::accounting::AllocationComponent;
use crate::assembly_cache::held_as;
use crate::assembly_cache::BuiltAssembly;
use crate::assembly_cache::HeldAssembly;
use crate::assembly_cache::LexicalIndexCache;
use crate::corpus::UnreadDocument;
use crate::error::GraphSearchError;
use crate::error::IoError;
use crate::error::QueryError;
use crate::error::Schema;
use crate::error::StoreError;
use crate::graph_cache::GraphEntries;
use crate::graph_cache::GraphScratchLease;
use crate::graph_cache::NormRange;
use crate::graph_cache::ScratchAllocation;
use crate::graph_cache::SegmentGraphSearchCache;
use crate::graph_cache::SharedGraphPreparation;
use crate::identity::drop_repeats;
use crate::identity::without_repeats;
use crate::identity::PhysicalIdentity;
use crate::ids::DocumentVersion;
use crate::ids::EpochIdentity;
use crate::ids::GlobalRowId;
use crate::ids::RowSource;
use crate::lexical::LexicalAssemblyError;
use crate::open::resolve_open_schema;
use crate::open::validate_epoch_identity;
use crate::open::validate_tokenizer_epoch;
use crate::open::OpenPlan;
use crate::open::OpenStage;
use crate::open::RecoveredActive;
use crate::options::AccessMode;
use crate::options::HybridLegTestFault;
use crate::prepared::GraphExactScore;
use crate::prepared::GraphRescore;
use crate::prepared::LayoutStep;
use crate::prepared::PreparedVectorQuery;
use crate::prepared_lexical::AssemblyReceipt;
use crate::rank::ranked;
use crate::search::GraphCacheError;
use crate::snapshot::EpochMeta;
use crate::snapshot::Manifest;
use crate::snapshot::PublishedSnapshot;
use crate::store::Store;
use vstd::prelude::*;

verus! {

/// An allocation is charged where its total stays within the ceiling, and a temporary
/// one where both totals do. It is added to the totals it belongs to; a refused one
/// changes nothing.
pub proof fn lemma_a_charge_is_added_within_the_ceilings(
    accounting: &mut Accounting,
    bytes: u64,
    component: AllocationComponent,
    result: Result<(), StoreError>,
)
    requires
        call_ensures(Accounting::charge, (accounting, bytes, component), result),
    ensures
        result is Ok <==> {
            &&& old(accounting).resident + bytes <= old(accounting).budgets.resident
            &&& component == AllocationComponent::Temporary ==> old(accounting).temporary + bytes
                <= old(accounting).budgets.temporary
        },
        result is Ok ==> {
            &&& final(accounting).resident == old(accounting).resident + bytes
            &&& component == AllocationComponent::Temporary ==> final(accounting).temporary
                == old(accounting).temporary + bytes
            &&& component != AllocationComponent::Temporary ==> final(accounting).temporary
                == old(accounting).temporary
            &&& final(accounting).budgets == old(accounting).budgets
        },
        result is Err ==> *final(accounting) == *old(accounting),
{
}

/// Releasing what was charged leaves the totals as they were before.
pub proof fn lemma_a_release_undoes_its_charge(
    accounting: &mut Accounting,
    later: &mut Accounting,
    bytes: u64,
    component: AllocationComponent,
)
    requires
        call_ensures(Accounting::charge, (accounting, bytes, component), Ok::<(), StoreError>(())),
        *old(later) == *final(accounting),
        call_ensures(Accounting::release, (later, bytes, component), ()),
    ensures
        final(later).resident == old(accounting).resident,
        final(later).temporary == old(accounting).temporary,
        final(later).budgets == old(accounting).budgets,
{
}

/// What is pushed stands behind what was there, as long as room was reserved.
pub proof fn lemma_a_push_needs_reserved_room<T>(
    buffer: &mut Accounted<T>,
    item: T,
    result: Result<(), StoreError>,
)
    requires
        call_ensures(Accounted::<T>::push, (buffer, item), result),
    ensures
        result is Ok <==> old(buffer).items@.len() < old(buffer).capacity,
        result is Ok ==> {
            &&& final(buffer).items@.len() == old(buffer).items@.len() + 1
            &&& final(buffer).items@.last() == item
            &&& forall|i: int|
                0 <= i < old(buffer).items@.len() ==> #[trigger] final(buffer).items@[i] == old(
                    buffer).items@[i]
        },
        result is Err ==> final(buffer).items@ == old(buffer).items@,
        final(buffer).bytes == old(buffer).bytes,
{
}

/// A reservation keeps the items, never shrinks the room, and moves the totals by what
/// the buffer's own bytes moved.
pub proof fn lemma_a_reservation_moves_the_totals_with_the_buffer<T>(
    buffer: &mut Accounted<T>,
    accounting: &mut Accounting,
    capacity: usize,
    result: Result<(), StoreError>,
)
    requires
        call_ensures(Accounted::<T>::try_reserve_total, (buffer, accounting, capacity), result),
    ensures
        final(buffer).items@ == old(buffer).items@,
        result is Ok ==> {
            &&& final(buffer).capacity >= old(buffer).capacity && final(buffer).capacity
                >= capacity
            &&& final(buffer).capacity == old(buffer).capacity || final(buffer).capacity
                == capacity
            &&& final(accounting).resident - old(accounting).resident == final(buffer).bytes
                - old(buffer).bytes
            &&& old(buffer).component == AllocationComponent::Temporary ==> final(
                accounting).temporary - old(accounting).temporary == final(buffer).bytes - old(
                buffer).bytes
            &&& old(buffer).component != AllocationComponent::Temporary ==> final(
                accounting).temporary == old(accounting).temporary
        },
        result is Err ==> *final(buffer) == *old(buffer) && *final(accounting) == *old(accounting),
{
}

/// A counter that is set holds the new number of bytes, and the totals move by the
/// difference.
pub proof fn lemma_a_counter_moves_the_totals_by_the_difference(
    counter: &mut AccountedCounter,
    accounting: &mut Accounting,
    bytes: u64,
    result: Result<(), StoreError>,
)
    requires
        call_ensures(AccountedCounter::set, (counter, accounting, bytes), result),
    ensures
        result is Ok ==> final(counter).bytes == bytes,
        result is Err ==> final(counter).bytes == old(counter).bytes && bytes > old(counter).bytes,
        final(accounting).resident - old(accounting).resident == final(counter).bytes - old(
            counter).bytes,
        old(counter).component == AllocationComponent::Temporary ==> final(accounting).temporary
            - old(accounting).temporary == final(counter).bytes - old(counter).bytes,
        old(counter).component != AllocationComponent::Temporary ==> final(accounting).temporary
            == old(accounting).temporary,
{
}

/// The identity of a row of a source.
pub open spec fn identity_of_row(
    source: RowSource,
    row: usize,
    document: Option<DocumentVersion>,
) -> PhysicalIdentity {
    PhysicalIdentity { row: GlobalRowId { source, local_row: row as u32 }, document }
}

/// Whether a score is kept under an identity.
pub open spec fn keeps_score(
    kept: Seq<GraphExactScore>,
    identity: PhysicalIdentity,
    bits: u64,
) -> bool {
    exists|e: int|
        0 <= e < kept.len() && (#[trigger] kept[e]).identity == identity && kept[e].bits == bits
}

proof fn lemma_new_scores_hold_each_row(
    query: PreparedVectorQuery,
    source: RowSource,
    rows: Seq<usize>,
    documents: Seq<Option<DocumentVersion>>,
    exact: Seq<u64>,
    n: nat,
    i: int,
)
    requires
        0 <= i < n <= rows.len(),
        rows[i] <= u32::MAX,
        query.unread(identity_of_row(source, rows[i], documents[i])),
    ensures
        query.new_scores(source, rows, documents, exact, n).contains(
            GraphExactScore {
                identity: identity_of_row(source, rows[i], documents[i]),
                bits: exact[i],
            },
        ),
    decreases n,
{
    let all = query.new_scores(source, rows, documents, exact, n);
    let earlier = query.new_scores(source, rows, documents, exact, (n - 1) as nat);
    if i == n - 1 {
        assert(all.last() == all[all.len() - 1]);
    } else {
        lemma_new_scores_hold_each_row(query, source, rows, documents, exact, (n - 1) as nat, i);
        let entry = GraphExactScore {
            identity: identity_of_row(source, rows[i], documents[i]),
            bits: exact[i],
        };
        let at = choose|at: int| 0 <= at < earlier.len() && earlier[at] == entry;
        assert(all[at] == entry);
    }
}

/// Each row of a traversal gets its own score: the one that was kept for that very row
/// and document, or the exact one that was computed for it; and behind the call it is
/// kept under them.
pub proof fn lemma_a_row_gets_its_own_exact_score(
    query: &mut PreparedVectorQuery,
    accounting: &mut Accounting,
    vector: u64,
    source: RowSource,
    rows: &Vec<usize>,
    documents: &Vec<Option<DocumentVersion>>,
    fault: Option<UnreadDocument>,
    exact: &Vec<u64>,
    result: Result<GraphRescore, QueryError>,
    i: int,
)
    requires
        call_ensures(
            PreparedVectorQuery::rescore_graph,
            (query, accounting, vector, source, rows, documents, fault, exact),
            result,
        ),
        old(query).sorted == old(query).graph_scores.items@.len(),
        vector == old(query).query,
        0 <= i < rows@.len(),
        result is Ok,
    ensures
        ({
            let done = result->Ok_0;
            let kept = old(query).graph_scores.items@;
            let own = identity_of_row(source, rows@[i], documents@[i]);
            &&& done.scores@.len() == rows@.len()
            &&& rows@[i] <= u32::MAX
            &&& keeps_score(kept, own, done.scores@[i]) || ((forall|e: int|
                0 <= e < kept.len() ==> (#[trigger] kept[e]).identity != own) && done.scores@[i]
                == exact@[i])
            &&& keeps_score(final(query).graph_scores.items@, own, done.scores@[i])
            &&& forall|e: int|
                0 <= e < kept.len() ==> #[trigger] final(query).graph_scores.items@.contains(
                    kept[e],
                )
        }),
{
    let done = result->Ok_0;
    let kept = old(query).graph_scores.items@;
    let own = identity_of_row(source, rows@[i], documents@[i]);
    let fresh = old(query).new_scores(source, rows@, documents@, exact@, rows@.len());
    let all = kept + fresh;
    let after = final(query).graph_scores.items@;
    assert(old(query).score_of(source, rows@[i], documents@[i], exact@[i], done.scores@[i]));
    assert(old(query).rows_done(
        *old(accounting),
        source,
        rows@,
        documents@,
        fault,
        rows@.len(),
    ) == rows@.len());
    assert(after == ranked(all));
    crate::rank::lemma_ranked_is_permutation(all);
    crate::rank::lemma_permutation_keeps_members(after, all);
    assert forall|e: int| 0 <= e < kept.len() implies #[trigger] after.contains(kept[e]) by {
        assert(all[e] == kept[e]);
    }
    if old(query).readable(own, done.scores@[i]) {
        let e = choose|e: int|
            0 <= e < kept.len() && #[trigger] kept[e] == (GraphExactScore {
                identity: own,
                bits: done.scores@[i],
            });
        assert(after.contains(kept[e]));
        let at = choose|at: int| 0 <= at < after.len() && after[at] == kept[e];
        assert(after[at].identity == own);
    } else {
        lemma_new_scores_hold_each_row(
            *old(query),
            source,
            rows@,
            documents@,
            exact@,
            rows@.len(),
            i,
        );
        let entry = GraphExactScore { identity: own, bits: exact@[i] };
        let f = choose|f: int| 0 <= f < fresh.len() && fresh[f] == entry;
        assert(all[kept.len() + f] == entry);
        assert(after.contains(entry));
        let at = choose|at: int| 0 <= at < after.len() && after[at] == entry;
        assert(after[at].identity == own);
    }
}

/// Dropping repeats keeps every identity, and of neighbours that are equal one.
pub proof fn lemma_dropping_repeats_loses_no_identity(items: &mut Vec<PhysicalIdentity>)
    requires
        call_ensures(drop_repeats, (items,), ()),
    ensures
        forall|id: PhysicalIdentity| #[trigger]
            final(items)@.contains(id) <==> old(items)@.contains(id),
        forall|i: int|
            0 <= i < final(items)@.len() - 1 ==> #[trigger] final(items)@[i] != final(items)@[i
                + 1],
{
    lemma_repeats_are_dropped(old(items)@);
}

proof fn lemma_repeats_are_dropped(s: Seq<PhysicalIdentity>)
    ensures
        forall|id: PhysicalIdentity| #[trigger]
            without_repeats(s).contains(id) <==> s.contains(id),
        forall|i: int|
            0 <= i < without_repeats(s).len() - 1
                ==> #[trigger] without_repeats(s)[i]
                != without_repeats(s)[i + 1],
        s.len() > 0 ==> without_repeats(s).len() > 0
            && without_repeats(s).last() == s.last(),
    decreases s.len(),
{
    let all = without_repeats(s);
    if s.len() >= 2 {
        let rest = s.drop_last();
        lemma_repeats_are_dropped(rest);
        let earlier = without_repeats(rest);
        assert(rest.last() == s[s.len() - 2]);
        assert forall|id: PhysicalIdentity| #[trigger] all.contains(id) <==> s.contains(id) by {
            if s.contains(id) {
                let at = choose|at: int| 0 <= at < s.len() && s[at] == id;
                if at < rest.len() {
                    assert(rest[at] == id);
                } else {
                    assert(id == s.last());
                }
            }
            if rest.contains(id) {
                let at = choose|at: int| 0 <= at < rest.len() && rest[at] == id;
                assert(s[at] == id);
                assert(earlier.contains(id));
                let e = choose|e: int| 0 <= e < earlier.len() && earlier[e] == id;
                assert(all[e] == id);
            }
            assert(s[s.len() - 1] == s.last());
            assert(all.last() == s.last());
            assert(all[all.len() - 1] == s.last());
            if all.contains(id) && id != s.last() {
                let at = choose|at: int| 0 <= at < all.len() && all[at] == id;
                assert(earlier[at] == id);
                assert(earlier.contains(id));
            }
        }
    }
}

/// Whether a cache holds an assembly as an item.
pub open spec fn holds_item(held: Seq<HeldAssembly>, item: HeldAssembly) -> bool {
    exists|i: int| 0 <= i < held.len() && #[trigger] held[i] == item
}

proof fn lemma_a_held_item_is_found(held: Seq<HeldAssembly>, assembly: u64)
    ensures
        match held_as(held, assembly) {
            Some(item) => item.assembly == assembly && holds_item(held, item),
            None => forall|i: int| 0 <= i < held.len() ==> (#[trigger] held[i]).assembly != assembly,
        },
    decreases held.len(),
{
    if held.len() > 0 {
        if held.last().assembly == assembly {
            assert(held[held.len() - 1] == held.last());
        } else {
            let rest = held.drop_last();
            lemma_a_held_item_is_found(rest, assembly);
            if let Some(item) = held_as(rest, assembly) {
                let i = choose|i: int| 0 <= i < rest.len() && #[trigger] rest[i] == item;
                assert(held[i] == item);
            } else {
                assert forall|i: int| 0 <= i < held.len() implies (#[trigger] held[i]).assembly
                    != assembly by {
                    if i < rest.len() {
                        assert(rest[i].assembly != assembly);
                    }
                }
            }
        }
    }
}

/// An assembly is the one that was built for its generation: one that is cached is
/// handed out again and costs nothing, one that is built gets a number of its own, its
/// own segments and its own charge.
pub proof fn lemma_an_assembly_is_that_of_its_generation(
    cache: &mut LexicalIndexCache,
    generation: u64,
    built: Result<BuiltAssembly, LexicalAssemblyError>,
    accounting: &mut Accounting,
    result: Result<AssemblyReceipt, LexicalAssemblyError>,
)
    requires
        call_ensures(LexicalIndexCache::assemble, (cache, generation, built, accounting), result),
        result is Ok,
    ensures
        ({
            let receipt = result->Ok_0;
            &&& receipt.cache_hit ==> {
                &&& old(cache).entry == Some(receipt.assembly)
                &&& exists|i: int|
                    {
                        &&& 0 <= i < old(cache).held@.len()
                        &&& (#[trigger] old(cache).held@[i]).assembly == receipt.assembly
                        &&& old(cache).held@[i].generation == generation
                        &&& old(cache).held@[i].segments == receipt.segments
                    }
                &&& *final(accounting) == *old(accounting)
            }
            &&& !receipt.cache_hit ==> {
                &&& built is Ok
                &&& receipt.assembly == old(cache).next
                &&& final(cache).next == old(cache).next + 1
                &&& receipt.segments == built->Ok_0.segments
                &&& final(accounting).resident <= old(accounting).resident + built->Ok_0.bytes
                &&& exists|i: int|
                    {
                        &&& 0 <= i < final(cache).held@.len()
                        &&& (#[trigger] final(cache).held@[i]).assembly == receipt.assembly
                        &&& final(cache).held@[i].generation == generation
                        &&& final(cache).held@[i].segments == built->Ok_0.segments
                        &&& final(cache).held@[i].bytes == built->Ok_0.bytes
                    }
            }
        }),
{
    let receipt = result->Ok_0;
    if receipt.cache_hit {
        lemma_a_held_item_is_found(old(cache).held@, receipt.assembly);
        let item = old(cache).cached()->0;
        lemma_a_held_item_is_found(old(cache).held@, old(cache).entry->0);
        let i = choose|i: int|
            0 <= i < old(cache).held@.len() && #[trigger] old(cache).held@[i] == item;
        assert(old(cache).held@[i].assembly == receipt.assembly);
    } else {
        lemma_a_held_item_is_found(final(cache).held@, receipt.assembly);
        let item = final(cache).holds(receipt.assembly)->0;
        let i = choose|i: int|
            0 <= i < final(cache).held@.len() && #[trigger] final(cache).held@[i] == item;
        assert(final(cache).held@[i].assembly == receipt.assembly);
    }
}

/// What was assembled for a generation is handed out again for that generation, unless a
/// newer one was cached before.
pub proof fn lemma_an_assembly_is_handed_out_again(
    cache: &mut LexicalIndexCache,
    later: &mut LexicalIndexCache,
    generation: u64,
    built: Result<BuiltAssembly, LexicalAssemblyError>,
    rebuilt: Result<BuiltAssembly, LexicalAssemblyError>,
    accounting: &mut Accounting,
    later_accounting: &mut Accounting,
    first: AssemblyReceipt,
    second: Result<AssemblyReceipt, LexicalAssemblyError>,
)
    requires
        call_ensures(
            LexicalIndexCache::assemble,
            (cache, generation, built, accounting),
            Ok::<AssemblyReceipt, LexicalAssemblyError>(first),
        ),
        old(cache).wf(),
        forall|i: int|
            0 <= i < old(cache).held@.len() && old(cache).entry == Some(
                (#[trigger] old(cache).held@[i]).assembly,
            ) ==> old(cache).held@[i].generation <= generation,
        *old(later) == *final(cache),
        *old(later_accounting) == *final(accounting),
        call_ensures(
            LexicalIndexCache::assemble,
            (later, generation, rebuilt, later_accounting),
            second,
        ),
    ensures
        second matches Ok(receipt) && receipt.cache_hit && receipt.assembly == first.assembly
            && receipt.segments == first.segments,
        *final(later_accounting) == *final(accounting),
{
    if let Some(entry) = old(cache).entry {
        lemma_a_held_item_is_found(old(cache).held@, entry);
        let item = old(cache).cached()->0;
        let i = choose|i: int|
            0 <= i < old(cache).held@.len() && #[trigger] old(cache).held@[i] == item;
        assert(old(cache).held@[i].generation <= generation);
    }
    assert(final(cache).holds(first.assembly) is Some);
}

/// A scratch that is lent is one that waits, or one of the bytes that were asked for; and
/// a scratch that comes back waits again.
pub proof fn lemma_a_scratch_is_lent_and_comes_back(
    cache: &mut SegmentGraphSearchCache,
    later: &mut SegmentGraphSearchCache,
    accounting: &mut Accounting,
    discovered: Result<GraphEntries, GraphSearchError>,
    reusable: bool,
    allocation: ScratchAllocation,
    lease: GraphScratchLease,
)
    requires
        call_ensures(
            SegmentGraphSearchCache::checkout,
            (cache, accounting, discovered, reusable, allocation),
            Ok::<GraphScratchLease, GraphCacheError>(lease),
        ),
        reusable ==> old(cache).available@.len() > 0,
        *old(later) == *final(cache),
        call_ensures(SegmentGraphSearchCache::give_back, (later, &lease), ()),
    ensures
        reusable ==> lease.bytes == old(cache).available@.last() && final(accounting).resident
            == old(accounting).resident,
        !reusable ==> (allocation matches ScratchAllocation::Made { requested, actual }
            && requested == actual && lease.bytes == requested),
        old(cache).entries matches Some(known) ==> lease.entries == known
            && !lease.entry_seed_discovered,
        old(cache).entries is None ==> discovered is Ok && lease.entries == discovered->Ok_0
            && lease.entry_seed_discovered,
        final(cache).checked_out == old(cache).checked_out + 1,
        final(later).checked_out == old(cache).checked_out,
        final(later).available@.len() > 0 && final(later).available@.last() == lease.bytes,
        reusable ==> final(later).available@ == old(cache).available@,
{
    if reusable {
        assert(final(later).available@ =~= old(cache).available@);
    }
}

/// What a segment's searches share is prepared once: what is known stays, and only what
/// is not known is taken from what was found now.
pub proof fn lemma_a_segment_is_prepared_once(
    cache: &mut SegmentGraphSearchCache,
    bound: Result<(), StoreError>,
    discovered: Result<GraphEntries, GraphSearchError>,
    walked: Result<NormRange, GraphSearchError>,
    prepared: SharedGraphPreparation,
)
    requires
        call_ensures(
            SegmentGraphSearchCache::prepare_shared,
            (cache, bound, discovered, walked),
            Ok::<SharedGraphPreparation, GraphCacheError>(prepared),
        ),
    ensures
        prepared.graph_validated <==> !old(cache).graph,
        prepared.entry_seed_discovered <==> old(cache).entries is None,
        old(cache).norm_range matches Some(known) ==> prepared.norm_range == known,
        old(cache).norm_range is None ==> walked == Ok::<NormRange, GraphSearchError>(
            prepared.norm_range,
        ),
        final(cache).norm_range == Some(prepared.norm_range),
        final(cache).graph,
        old(cache).entries is Some ==> final(cache).entries == old(cache).entries,
        old(cache).entries is None ==> discovered is Ok && final(cache).entries == Some(
            discovered->Ok_0,
        ),
        final(cache).available == old(cache).available,
        final(cache).checked_out == old(cache).checked_out,
{
}

/// Whether two schemas are the same.
pub open spec fn equal_schemas(left: Schema, right: Schema) -> bool {
    left.columns@ == right.columns@ && left.label@ == right.label@
}

/// A store keeps the schema that it was created with: a declared one is taken where
/// there is no manifest, and refused where the manifest has another.
pub proof fn lemma_a_store_keeps_its_schema(
    manifest_exists: bool,
    persisted: &Schema,
    declared: &Option<Schema>,
    plain: &Schema,
    result: Result<Schema, StoreError>,
)
    requires
        call_ensures(resolve_open_schema, (manifest_exists, persisted, declared, plain), result),
    ensures
        result is Err <==> manifest_exists && declared is Some && !equal_schemas(
            declared->0,
            *persisted,
        ),
        result matches Ok(schema) ==> {
            &&& manifest_exists ==> equal_schemas(schema, *persisted)
            &&& declared is Some ==> equal_schemas(schema, declared->0)
            &&& !manifest_exists && declared is None ==> equal_schemas(schema, *plain)
        },
{
}

/// A store is opened under the epoch that it was stamped with, or under none where it
/// has none; only a new store that can be written takes a declared one.
pub proof fn lemma_a_store_keeps_its_epoch(
    persisted: Option<EpochIdentity>,
    declared: Option<EpochIdentity>,
    manifest_exists: bool,
    access_mode: AccessMode,
    result: Result<(), StoreError>,
)
    requires
        call_ensures(
            validate_epoch_identity,
            (persisted, declared, manifest_exists, access_mode),
            result,
        ),
    ensures
        result is Ok <==> persisted == declared || (persisted is None && !manifest_exists
            && access_mode == AccessMode::ReadWrite),
        persisted is Some && declared is None ==> result == Err::<(), StoreError>(
            StoreError::EpochUndeclared,
        ),
        persisted is None && result is Err ==> result == Err::<(), StoreError>(
            StoreError::EpochUnstamped,
        ),
{
}

/// Text is read with the tokenizer of the store's epoch, where it has one.
pub proof fn lemma_a_store_keeps_its_tokenizer(
    expected: Option<EpochIdentity>,
    tokenizer: u64,
    result: Result<(), StoreError>,
)
    requires
        call_ensures(validate_tokenizer_epoch, (expected, tokenizer), result),
    ensures
        result is Ok <==> expected is None || expected->0.tokenizer == tokenizer,
{
}

/// The epoch of a store is the persisted one, and the declared one where none is.
pub proof fn lemma_a_persisted_epoch_comes_first(plan: &OpenPlan, identity: Option<EpochIdentity>)
    requires
        call_ensures(OpenPlan::identity, (plan,), identity),
    ensures
        plan.persisted is Some ==> identity == plan.persisted,
        plan.persisted is None && plan.options.epoch is None ==> identity is None,
        plan.persisted is None ==> (plan.options.epoch matches Some(epoch) ==> identity == Some(
            epoch.identity,
        )),
{
}

/// The first manifest of a store has no segments; it carries the declared epoch and the
/// schema that was resolved.
pub proof fn lemma_the_first_manifest_is_empty(
    plan: &OpenPlan,
    epoch: Option<EpochMeta>,
    manifest: Manifest,
)
    requires
        call_ensures(OpenPlan::first_manifest, (plan, epoch), manifest),
    ensures
        manifest.segments@.len() == 0,
        manifest.generation == plan.active.generation,
        manifest.log_seq == 0,
        equal_schemas(manifest.schema, plan.schema),
        plan.options.epoch is None ==> manifest.epoch_alias is None,
        plan.options.epoch matches Some(declared) ==> manifest.epoch_alias == Some(
            declared.identity,
        ),
        epoch matches Some(meta) ==> manifest.epochs@.len() == 1 && manifest.epochs@[0] == meta,
        epoch is None ==> manifest.epochs@.len() == 0,
{
}

/// A store that is opened shows the loaded snapshot, writes only where it was opened for
/// it, counts no query and keeps the ceilings of its options.
pub proof fn lemma_an_opened_store_shows_its_snapshot(
    plan: OpenPlan,
    handle: u64,
    accounting: Accounting,
    epoch: Option<EpochMeta>,
    fault: Option<HybridLegTestFault>,
    store: Store,
)
    requires
        call_ensures(OpenPlan::publish, (plan, handle, accounting, epoch, fault), store),
        plan.snapshot is Some,
    ensures
        store.handle == handle,
        store.snapshot == plan.snapshot,
        store.writer_lock <==> plan.options.access_mode == AccessMode::ReadWrite,
        store.background <==> plan.options.access_mode == AccessMode::ReadWrite,
        store.active is Some && store.active->0.rows == plan.active.rows,
        store.active->0.generation >= plan.active.generation && store.active->0.generation
            >= plan.snapshot->0.generation,
        store.active->0.generation == plan.active.generation || store.active->0.generation
            == plan.snapshot->0.generation,
        store.active_queries == 0,
        store.accounting == accounting,
        store.reader_drain_timeout == plan.options.reader_drain_timeout,
        store.accounting.budgets.resident == plan.options.max_resident_bytes,
        store.accounting.budgets.temporary == plan.options.max_temp_bytes,
        equal_schemas(store.schema, plan.schema),
{
}

/// The last owner that lets go of an assembly gives back its bytes, and one before it
/// gives back none.
pub proof fn lemma_the_last_owner_gives_back_the_bytes(
    cache: &mut LexicalIndexCache,
    assembly: u64,
    accounting: &mut Accounting,
    i: int,
)
    requires
        call_ensures(LexicalIndexCache::release, (cache, assembly, accounting), ()),
        old(cache).wf(),
        0 <= i < old(cache).held@.len(),
        old(cache).held@[i].assembly == assembly,
    ensures
        ({
            let item = old(cache).held@[i];
            &&& item.owners > 1 ==> final(accounting).resident == old(accounting).resident
            &&& item.owners == 1 ==> final(accounting).resident == old(accounting).resident
                - item.bytes
            &&& final(accounting).temporary == old(accounting).temporary
            &&& final(cache).entry == old(cache).entry
        }),
{
    lemma_a_held_item_is_found(old(cache).held@, assembly);
    let item = held_as(old(cache).held@, assembly)->0;
    let j = choose|j: int| 0 <= j < old(cache).held@.len() && #[trigger] old(cache).held@[j]
        == item;
    if i < j {
        assert(old(cache).held@[i].assembly != old(cache).held@[j].assembly);
    } else if j < i {
        assert(old(cache).held@[j].assembly != old(cache).held@[i].assembly);
    }
}

/// The order in which a store is opened: a store that is only read takes no lock and
/// writes nothing, and the log is resumed where there is one and made where there is
/// none.
pub proof fn lemma_a_read_only_store_writes_nothing(
    first: &mut OpenPlan,
    outcome: Result<bool, IoError>,
    ensured: Result<(), StoreError>,
    second: &mut OpenPlan,
    recovered: Result<RecoveredActive, StoreError>,
    result: Result<(), StoreError>,
)
    requires
        call_ensures(OpenPlan::directory_ensured, (first, outcome), ensured),
        call_ensures(OpenPlan::active_recovered, (second, recovered), result),
    ensures
        ensured is Ok ==> {
            &&& old(first).options.access_mode == AccessMode::ReadOnly ==> final(first).stage
                == OpenStage::ProbeManifest
            &&& old(first).options.access_mode == AccessMode::ReadWrite ==> final(first).stage
                == OpenStage::AcquireLock
        },
        ensured is Ok <==> outcome == Ok::<bool, IoError>(true),
        result is Ok <==> recovered is Ok,
        result is Ok ==> {
            &&& final(second).active == recovered->Ok_0.active
            &&& final(second).wal == recovered->Ok_0.wal
            &&& old(second).options.access_mode == AccessMode::ReadOnly ==> final(second).stage
                == OpenStage::Publish
            &&& final(second).stage == OpenStage::ResumeWal ==> recovered->Ok_0.wal
            &&& final(second).stage == OpenStage::CreateWal ==> !recovered->Ok_0.wal
            &&& final(second).stage == OpenStage::CommitManifest ==> !old(second).manifest_exists
            &&& final(second).stage == OpenStage::SyncDirectory ==> old(second).manifest_exists
        },
{
}

/// A step of opening that fails leaves the plan as it was, and a step that succeeds goes
/// on to the next.
pub proof fn lemma_a_failed_step_opens_nothing(
    plan: &mut OpenPlan,
    outcome: Result<PublishedSnapshot, StoreError>,
    result: Result<(), StoreError>,
)
    requires
        call_ensures(OpenPlan::snapshot_loaded, (plan, outcome), result),
    ensures
        result is Err ==> *final(plan) == *old(plan),
        result is Ok ==> {
            &&& outcome is Ok
            &&& final(plan).snapshot == Some(outcome->Ok_0)
            &&& final(plan).persisted == outcome->Ok_0.epoch_alias
            &&& final(plan).stage == OpenStage::BuildTokenizer
            &&& old(plan).manifest_exists ==> equal_schemas(
                final(plan).schema,
                outcome->Ok_0.schema,
            )
            &&& old(plan).options.schema is Some ==> equal_schemas(
                final(plan).schema,
                old(plan).options.schema->0,
            )
            &&& outcome->Ok_0.epoch_alias matches Some(stamped) ==> (old(
                plan).options.epoch matches Some(declared) && declared.identity == stamped)
        },
{
}

/// A prepared vector serves its own query and its own space, and no other.
pub proof fn lemma_a_prepared_vector_serves_its_own_query(
    query: &PreparedVectorQuery,
    vector: u64,
    space: Option<EpochIdentity>,
    result: Result<(), QueryError>,
)
    requires
        call_ensures(PreparedVectorQuery::validate_binding, (query, vector, space), result),
    ensures
        result is Ok <==> vector == query.query && space == query.space,
{
}

/// A layout that is kept is used again for its own geometry, and for no other.
pub proof fn lemma_a_layout_is_used_for_its_own_geometry(
    query: &mut PreparedVectorQuery,
    accounting: &mut Accounting,
    vector: u64,
    padded: usize,
    seed: u64,
    result: Result<LayoutStep, QueryError>,
)
    requires
        call_ensures(
            PreparedVectorQuery::plan_layout,
            (query, accounting, vector, padded, seed),
            result,
        ),
    ensures
        result matches Ok(LayoutStep::Ready(at)) ==> {
            let layout = old(query).layouts.items@[at as int].geometry;
            &&& at < old(query).layouts.items@.len()
            &&& layout.dimensions == old(query).dimensions
            &&& layout.padded_dimensions == padded && layout.seed == seed
            &&& layout.space == old(query).space
            &&& *final(accounting) == *old(accounting)
        },
        vector != old(query).query ==> result is Err,
{
}

/// A layout that was prepared is kept under its own geometry, with its own codes.
pub proof fn lemma_a_layout_is_kept_under_its_geometry(
    query: &mut PreparedVectorQuery,
    accounting: &mut Accounting,
    padded: usize,
    seed: u64,
    peak: u64,
    prepared: Result<u64, GraphSearchError>,
    result: Result<usize, QueryError>,
)
    requires
        call_ensures(
            PreparedVectorQuery::finish_layout,
            (query, accounting, padded, seed, peak, prepared),
            result,
        ),
    ensures
        result matches Ok(at) ==> {
            let (before, after) = (old(query).layouts.items@, final(query).layouts.items@);
            &&& prepared is Ok
            &&& after.len() == before.len() + 1
            &&& forall|i: int| 0 <= i < before.len() ==> #[trigger] after[i] == before[i]
            &&& after.last().codes == prepared->Ok_0
            &&& after.last().geometry.dimensions == old(query).dimensions
            &&& after.last().geometry.padded_dimensions == padded
            &&& after.last().geometry.seed == seed
            &&& after.last().geometry.space == old(query).space
            &&& final(accounting).resident == old(accounting).resident - peak + prepared->Ok_0
        },
        result is Err ==> *final(query) == *old(query) && final(accounting).resident == old(
            accounting).resident - peak,
{
}

} // verus!
