//! One round of a hybrid query: both windows, cross-filled and bounded.

use crate::accounting::Accounted;
use crate::accounting::Accounting;
use crate::accounting::AllocationComponent;
use crate::candidates::LexicalCandidate;
use crate::candidates::LexicalHit;
use crate::candidates::SearchCandidate;
use crate::candidates::SearchCounters;
use crate::candidates::StructuredLexicalSource;
use crate::candidates::VectorCandidate;
use crate::cross_score::keys_are_distinct;
use crate::cross_score::lookup;
use crate::cross_score::CachedScore;
use crate::cross_score::CrossScoreCache;
use crate::cross_score::CrossScoreKey;
use crate::cross_score::CrossScorePolicy;
use crate::error::StoreError;
use crate::fusion::FusionError;
use crate::hybrid::is_overflow;
use crate::hybrid::is_refusal;
use crate::hybrid::is_scratch;
use crate::hybrid::overflow;
use crate::hybrid::refusal;
use crate::hybrid::HybridRoundBuffers;
use crate::identity::drop_repeats;
use crate::identity::find_ranked;
use crate::identity::identity_of;
use crate::identity::is_lexical_invariant;
use crate::identity::is_vector_invariant;
use crate::identity::lemma_rank_identifies;
use crate::identity::lemma_without_repeats_members;
use crate::identity::lexical_identity;
use crate::identity::lexical_invariant;
use crate::identity::source_complaint;
use crate::identity::source_of;
use crate::identity::vector_invariant;
use crate::identity::without_repeats;
use crate::identity::PhysicalIdentity;
use crate::ids::DocId;
use crate::ids::DocumentVersion;
use crate::ids::EpochIdentity;
use crate::ids::GlobalRowId;
use crate::ids::SegmentId;
use crate::observations::HybridScoreObserver;
use crate::observations::ObservedScoring;
use crate::rank::before;
use crate::rank::is_ranked;
use crate::rank::lemma_permutation_keeps_members;
use crate::rank::lemma_ranked_is_permutation;
use crate::rank::lemma_ranked_is_ranked;
use crate::rank::rank_items;
use crate::rank::ranked;
use crate::rank::Ranked;
use crate::score::Double;
use crate::score::Score;
use vstd::prelude::*;

verus! {

/// Ranges of the first round, kept through every widening.
#[derive(Clone, Copy, Debug, PartialEq, Eq, Structural)]
pub struct HybridAnchors {
    pub vector_ceiling: Option<Double>,
    pub lexical_maximum: Double,
}

/// Range of vector distances; its minimum is zero.
#[derive(Clone, Copy, Debug, PartialEq, Eq, Structural)]
pub struct VectorBounds {
    pub max_squared_l2: Double,
    pub next_unseen_squared_l2: Option<Score>,
}

/// Range of lexical scores; its minimum is zero.
#[derive(Clone, Copy, Debug, PartialEq, Eq, Structural)]
pub struct LexicalBounds {
    pub max_bm25: Double,
    pub next_unseen_bm25: Option<Double>,
}

/// Where a fused document was found.
#[derive(Clone, Copy, Debug, PartialEq, Eq, Structural)]
pub struct AddressEntry {
    pub key: DocId,
    pub row_id: GlobalRowId,
    pub document: Option<DocumentVersion>,
}

impl Ranked for AddressEntry {
    /// By document key.
    open spec fn rank(self) -> (int, int, int) {
        (self.key.value as int, 0, 0)
    }

    fn ranks_before(&self, other: &Self) -> (result: bool) {
        self.key.value < other.key.value
    }

    fn ties_with(&self, other: &Self) -> (result: bool) {
        self.key.value == other.key.value
    }
}

/// What is left to score before a round can be built: places in the lexical
/// window that need a distance, and places in the vector window that need a
/// lexical score.
#[derive(Debug)]
pub struct RoundPlan {
    pub vector_ids: Vec<PhysicalIdentity>,
    pub lexical_ids: Vec<PhysicalIdentity>,
    pub vector_needed: Vec<usize>,
    pub lexical_needed: Vec<usize>,
}

/// A built round; its cross-filled lists stand in the buffers.
#[derive(Debug)]
pub struct HybridRound {
    pub addresses: Option<Accounted<AddressEntry>>,
    pub vector_bounds: Option<VectorBounds>,
    pub lexical_bounds: LexicalBounds,
    pub cross_filled_vector: usize,
    pub cross_filled_lexical: usize,
    /// Work of the lexical scores that were computed.
    pub lexical_counters: SearchCounters,
    pub vector_scores_computed: usize,
    pub lexical_scores_computed: usize,
}

/// The first `width` items.
pub open spec fn window<T>(s: Seq<T>, width: nat) -> Seq<T> {
    if width < s.len() {
        s.take(width as int)
    } else {
        s
    }
}

pub open spec fn candidate_identity(candidate: SearchCandidate) -> PhysicalIdentity {
    PhysicalIdentity { row: candidate.row_id, document: candidate.document }
}

/// Identities of a vector window.
pub open spec fn vector_ids(candidates: Seq<SearchCandidate>) -> Seq<PhysicalIdentity> {
    candidates.map_values(|candidate: SearchCandidate| candidate_identity(candidate))
}

/// Identities of a lexical window.
pub open spec fn lexical_ids(
    segments: Seq<SegmentId>,
    sources: Seq<StructuredLexicalSource>,
    hits: Seq<LexicalHit>,
) -> Seq<PhysicalIdentity> {
    hits.map_values(|hit: LexicalHit| identity_of(segments, sources, hit))
}

/// Whether every hit names a source that the snapshot holds.
pub open spec fn all_resolve(
    segments: Seq<SegmentId>,
    sources: Seq<StructuredLexicalSource>,
    hits: Seq<LexicalHit>,
) -> bool {
    forall|i: int|
        0 <= i < hits.len() ==> source_of(segments, sources, (#[trigger] hits[i]).doc.segment)
            is Some
}

/// The cached score of an identity.
pub open spec fn cached(
    scores: Seq<CachedScore>,
    epoch: Option<EpochIdentity>,
    identity: PhysicalIdentity,
    policy: CrossScorePolicy,
) -> Option<u64> {
    lookup(scores, CrossScoreKey { identity, epoch, policy })
}

/// Places of `ids` that are neither in `present` nor cached.
pub open spec fn needed(
    ids: Seq<PhysicalIdentity>,
    present: Seq<PhysicalIdentity>,
    scores: Seq<CachedScore>,
    epoch: Option<EpochIdentity>,
    policy: CrossScorePolicy,
) -> Seq<usize>
    decreases ids.len(),
{
    if ids.len() == 0 {
        Seq::empty()
    } else {
        let earlier = needed(ids.drop_last(), present, scores, epoch, policy);
        if !present.contains(ids.last()) && cached(scores, epoch, ids.last(), policy) is None {
            earlier.push((ids.len() - 1) as usize)
        } else {
            earlier
        }
    }
}

/// Scores of the identities that are not in `present`, in order: the cached one
/// where there is one, else the next fresh one.
pub open spec fn filled(
    ids: Seq<PhysicalIdentity>,
    present: Seq<PhysicalIdentity>,
    scores: Seq<CachedScore>,
    epoch: Option<EpochIdentity>,
    policy: CrossScorePolicy,
    fresh: Seq<u64>,
) -> Seq<(int, u64)>
    decreases ids.len(),
{
    if ids.len() == 0 {
        Seq::empty()
    } else {
        let rest = ids.drop_last();
        let earlier = filled(rest, present, scores, epoch, policy, fresh);
        let at = ids.len() - 1;
        if present.contains(ids.last()) {
            earlier
        } else {
            match cached(scores, epoch, ids.last(), policy) {
                Some(bits) => earlier.push((at, bits)),
                None => earlier.push(
                    (at, fresh[needed(rest, present, scores, epoch, policy).len() as int]),
                ),
            }
        }
    }
}

/// The entries that fresh scores add to the cache.
pub open spec fn fresh_entries(
    ids: Seq<PhysicalIdentity>,
    present: Seq<PhysicalIdentity>,
    scores: Seq<CachedScore>,
    epoch: Option<EpochIdentity>,
    policy: CrossScorePolicy,
    fresh: Seq<u64>,
) -> Seq<CachedScore>
    decreases ids.len(),
{
    if ids.len() == 0 {
        Seq::empty()
    } else {
        let rest = ids.drop_last();
        let earlier = fresh_entries(rest, present, scores, epoch, policy, fresh);
        if !present.contains(ids.last()) && cached(scores, epoch, ids.last(), policy) is None {
            earlier.push(
                CachedScore {
                    key: CrossScoreKey { identity: ids.last(), epoch, policy },
                    bits: fresh[needed(rest, present, scores, epoch, policy).len() as int],
                },
            )
        } else {
            earlier
        }
    }
}

/// The application key of a pinned document.
pub open spec fn key_of_document(document: Option<DocumentVersion>) -> Option<DocId> {
    match document {
        Some(version) => Some(version.doc_id),
        None => None,
    }
}

/// A vector hit as a candidate of its own leg.
pub open spec fn own_vector(candidate: SearchCandidate) -> VectorCandidate {
    VectorCandidate {
        document: key_of_document(candidate.document),
        squared_l2: candidate.score.spec_negated(),
        exact: candidate.exact_score,
    }
}

/// A lexical hit as a candidate of its own leg.
pub open spec fn own_lexical(hit: LexicalHit) -> LexicalCandidate {
    LexicalCandidate { document: key_of_document(hit.document), bm25: hit.bm25 }
}

/// The bit patterns of distances.
pub open spec fn distance_bits(scores: Seq<Score>) -> Seq<u64> {
    scores.map_values(|score: Score| score.bits as u64)
}

/// The bit patterns of lexical scores.
pub open spec fn lexical_bits(scores: Seq<Double>) -> Seq<u64> {
    scores.map_values(|score: Double| score.bits)
}

/// Distances of the lexical hits that the vector window lacks.
pub open spec fn cross_vector(
    hits: Seq<LexicalHit>,
    fills: Seq<(int, u64)>,
) -> Seq<VectorCandidate> {
    fills.map_values(
        |fill: (int, u64)|
            VectorCandidate {
                document: key_of_document(hits[fill.0].document),
                squared_l2: Score { bits: fill.1 as u32 },
                exact: true,
            },
    )
}

/// Lexical scores of the vector hits that the lexical window lacks.
pub open spec fn cross_lexical(
    candidates: Seq<SearchCandidate>,
    fills: Seq<(int, u64)>,
) -> Seq<LexicalCandidate> {
    fills.map_values(
        |fill: (int, u64)|
            LexicalCandidate {
                document: key_of_document(candidates[fill.0].document),
                bm25: Double { bits: fill.1 },
            },
    )
}

/// The vector list of a round.
pub open spec fn round_vector(
    candidates: Seq<SearchCandidate>,
    hits: Seq<LexicalHit>,
    fills: Seq<(int, u64)>,
) -> Seq<VectorCandidate> {
    ranked(
        candidates.map_values(|candidate: SearchCandidate| own_vector(candidate)) + cross_vector(
            hits,
            fills,
        ),
    )
}

/// The lexical list of a round.
pub open spec fn round_lexical(
    candidates: Seq<SearchCandidate>,
    hits: Seq<LexicalHit>,
    fills: Seq<(int, u64)>,
) -> Seq<LexicalCandidate> {
    ranked(
        hits.map_values(|hit: LexicalHit| own_lexical(hit)) + cross_lexical(candidates, fills),
    )
}

/// Ranked identities, each once.
pub open spec fn key_list(ids: Seq<PhysicalIdentity>) -> Seq<PhysicalIdentity> {
    without_repeats(ranked(ids))
}

/// Addresses of the identities that have a document.
pub open spec fn address_list(ids: Seq<PhysicalIdentity>) -> Seq<AddressEntry>
    decreases ids.len(),
{
    if ids.len() == 0 {
        Seq::empty()
    } else {
        let earlier = address_list(ids.drop_last());
        match ids.last().document {
            Some(version) => earlier.push(
                AddressEntry {
                    key: version.doc_id,
                    row_id: ids.last().row,
                    document: ids.last().document,
                },
            ),
            None => earlier,
        }
    }
}

/// Whether one document key stands for two different places.
pub open spec fn conflicts(entries: Seq<AddressEntry>) -> bool {
    exists|i: int, j: int|
        0 <= i < entries.len() && 0 <= j < entries.len() && (#[trigger] entries[i]).key == (
        #[trigger] entries[j]).key && entries[i] != entries[j]
}

fn window_end(len: usize, width: usize) -> (end: usize)
    ensures
        end == if width < len {
            width
        } else {
            len
        },
{
    if width < len {
        width
    } else {
        len
    }
}

proof fn lemma_key_list_members(ids: Seq<PhysicalIdentity>)
    ensures
        is_ranked(key_list(ids)),
        forall|id: PhysicalIdentity| #[trigger] key_list(ids).contains(id) <==> ids.contains(id),
        key_list(ids).len() <= ids.len(),
{
    lemma_ranked_is_permutation(ids);
    lemma_ranked_is_ranked(ids);
    lemma_permutation_keeps_members(ids, ranked(ids));
    lemma_without_repeats_members(ranked(ids));
    let keys = key_list(ids);
    assert forall|i: int, j: int| 0 <= i < j < keys.len() implies !before(
        (#[trigger] keys[j]).rank(),
        (#[trigger] keys[i]).rank(),
    ) by {
        assert(before(keys[i].rank(), keys[j].rank()));
    }
    assert forall|id: PhysicalIdentity| #[trigger] keys.contains(id) <==> ids.contains(id) by {
        assert(ranked(ids).contains(id) <==> ids.contains(id));
    }
    lemma_without_repeats_len(ranked(ids));
}

proof fn lemma_without_repeats_len(s: Seq<PhysicalIdentity>)
    ensures
        without_repeats(s).len() <= s.len(),
    decreases s.len(),
{
    if s.len() >= 2 {
        lemma_without_repeats_len(s.drop_last());
    }
}

fn is_member(keys: &Vec<PhysicalIdentity>, identity: PhysicalIdentity) -> (result: bool)
    requires
        is_ranked(keys@),
    ensures
        result == keys@.contains(identity),
{
    assert(keys@.take(keys@.len() as int) == keys@);
    match find_ranked(keys, keys.len(), &identity) {
        Some(at) => {
            proof {
                lemma_rank_identifies(keys@[at as int], identity);
            }
            true
        },
        None => {
            assert forall|i: int| 0 <= i < keys@.len() implies keys@[i] != identity by {
                assert(keys@[i].rank() != identity.rank());
            }
            false
        },
    }
}

/// Reads the identities of the first `end` vector candidates.
fn collect_vector_ids(candidates: &Vec<SearchCandidate>, end: usize) -> (ids: Vec<PhysicalIdentity>)
    requires
        end <= candidates@.len(),
    ensures
        ids@ == vector_ids(candidates@.take(end as int)),
{
    let mut ids: Vec<PhysicalIdentity> = Vec::with_capacity(end);
    let mut at: usize = 0;
    while at < end
        invariant
            at <= end <= candidates@.len(),
            ids@ == vector_ids(candidates@.take(at as int)),
        decreases end - at,
    {
        let candidate = candidates[at];
        ids.push(PhysicalIdentity { row: candidate.row_id, document: candidate.document });
        at = at + 1;
        assert(ids@ == vector_ids(candidates@.take(at as int)));
    }
    ids
}

/// Resolves the identities of the first `end` lexical hits.
fn collect_lexical_ids(
    segments: &Vec<SegmentId>,
    sources: &Vec<StructuredLexicalSource>,
    hits: &Vec<LexicalHit>,
    end: usize,
) -> (result: Result<Vec<PhysicalIdentity>, FusionError>)
    requires
        end <= hits@.len(),
    ensures
        match result {
            Ok(ids) => all_resolve(segments@, sources@, hits@.take(end as int)) && ids@
                == lexical_ids(segments@, sources@, hits@.take(end as int)),
            Err(error) => unresolved(segments@, sources@, hits@.take(end as int), error),
        },
{
    let mut ids: Vec<PhysicalIdentity> = Vec::with_capacity(end);
    let mut at: usize = 0;
    while at < end
        invariant
            at <= end <= hits@.len(),
            all_resolve(segments@, sources@, hits@.take(at as int)),
            ids@ == lexical_ids(segments@, sources@, hits@.take(at as int)),
        decreases end - at,
    {
        let ghost seen = hits@.take(end as int);
        match lexical_identity(segments, sources, &hits[at]) {
            Ok(identity) => {
                ids.push(identity);
            },
            Err(error) => {
                assert(seen[at as int] == hits@[at as int]);
                assert forall|i: int| 0 <= i < at implies source_of(
                    segments@,
                    sources@,
                    (#[trigger] seen[i]).doc.segment,
                ) is Some by {
                    assert(hits@.take(at as int)[i] == seen[i]);
                }
                assert(unresolved_at(segments@, sources@, seen, at as int, error));
                return Err(error);
            },
        }
        assert forall|i: int| 0 <= i < at + 1 implies source_of(
            segments@,
            sources@,
            (#[trigger] hits@.take(at + 1)[i]).doc.segment,
        ) is Some by {
            if i < at {
                assert(hits@.take(at as int)[i] == hits@[i]);
            }
        }
        at = at + 1;
        assert(ids@ == lexical_ids(segments@, sources@, hits@.take(at as int)));
    }
    Ok(ids)
}

/// The hit at `at` is the first without a source, and the failure says why.
pub open spec fn unresolved_at(
    segments: Seq<SegmentId>,
    sources: Seq<StructuredLexicalSource>,
    hits: Seq<LexicalHit>,
    at: int,
    error: FusionError,
) -> bool {
    &&& 0 <= at < hits.len()
    &&& source_of(segments, sources, hits[at].doc.segment) is None
    &&& forall|i: int|
        0 <= i < at ==> source_of(segments, sources, (#[trigger] hits[i]).doc.segment) is Some
    &&& is_lexical_invariant(error, source_complaint(sources, hits[at].doc.segment))
}

/// Some hit is the first without a source, and the failure says why.
pub open spec fn unresolved(
    segments: Seq<SegmentId>,
    sources: Seq<StructuredLexicalSource>,
    hits: Seq<LexicalHit>,
    error: FusionError,
) -> bool {
    exists|at: int| unresolved_at(segments, sources, hits, at, error)
}

fn find_needed(
    ids: &Vec<PhysicalIdentity>,
    keys: &Vec<PhysicalIdentity>,
    Ghost(present): Ghost<Seq<PhysicalIdentity>>,
    cache: &CrossScoreCache,
    policy: CrossScorePolicy,
) -> (places: Vec<usize>)
    requires
        cache.well_formed(),
        keys@ == key_list(present),
    ensures
        places@ == needed(ids@, present, cache.finished(), cache.epoch, policy),
{
    proof {
        lemma_key_list_members(present);
    }
    let mut places: Vec<usize> = Vec::new();
    let mut at: usize = 0;
    while at < ids.len()
        invariant
            at <= ids@.len(),
            cache.well_formed(),
            is_ranked(keys@),
            forall|id: PhysicalIdentity| #[trigger] keys@.contains(id) <==> present.contains(id),
            places@ == needed(
                ids@.take(at as int),
                present,
                cache.finished(),
                cache.epoch,
                policy,
            ),
        decreases ids.len() - at,
    {
        let ghost prefix = ids@.take(at + 1);
        assert(prefix.drop_last() == ids@.take(at as int));
        assert(prefix.last() == ids@[at as int]);
        let identity = ids[at];
        if !is_member(keys, identity) && cache.get(cache.key(identity, policy)).is_none() {
            places.push(at);
        }
        at = at + 1;
    }
    assert(ids@.take(at as int) == ids@);
    places
}

/// The totals hold at least what the buffers and the cache were charged.
pub open spec fn both_covered(
    accounting: Accounting,
    buffers: HybridRoundBuffers,
    cache: CrossScoreCache,
) -> bool {
    &&& buffers.resident_bytes + cache.entries.bytes <= accounting.resident
    &&& buffers.resident_bytes + cache.entries.bytes <= accounting.temporary
}

/// Whether a later round can use the scores of this one.
pub open spec fn retains(
    vector: Seq<SearchCandidate>,
    lexical: Seq<LexicalHit>,
    width: nat,
) -> bool {
    width < vector.len() || width < lexical.len()
}

/// The plan of a round, and the buffers and the cache that wait for its scores.
pub open spec fn is_plan(
    plan: RoundPlan,
    segments: Seq<SegmentId>,
    sources: Seq<StructuredLexicalSource>,
    vector: Seq<SearchCandidate>,
    lexical: Seq<LexicalHit>,
    width: nat,
    cache: CrossScoreCache,
    buffers: HybridRoundBuffers,
) -> bool {
    let candidates = window(vector, width);
    let hits = window(lexical, width);
    let vids = vector_ids(candidates);
    let lids = lexical_ids(segments, sources, hits);
    &&& plan.vector_ids@ == vids
    &&& plan.lexical_ids@ == lids
    &&& buffers.has_room(candidates.len() as int, hits.len() as int)
    &&& buffers.vector_keys.items@ == key_list(vids)
    &&& buffers.lexical_keys.items@ == key_list(lids)
    &&& buffers.vector.items@.len() == 0
    &&& buffers.lexical.items@.len() == 0
    &&& plan.vector_needed@ == needed(
        lids,
        vids,
        cache.finished(),
        cache.epoch,
        CrossScorePolicy::SquaredL2F32,
    )
    &&& plan.lexical_needed@ == needed(
        vids,
        lids,
        cache.finished(),
        cache.epoch,
        CrossScorePolicy::Bm25Beir,
    )
    &&& retains(vector, lexical, width) ==> cache.entries.items@.len() + candidates.len()
        + hits.len() <= cache.entries.capacity
}

/// What planning a round from `start` and `totals` comes to: a plan, or the first
/// step that failed, and what an observer sees of the steps that were taken.
pub open spec fn is_planned(
    segments: Seq<SegmentId>,
    sources: Seq<StructuredLexicalSource>,
    vector: Seq<SearchCandidate>,
    lexical: Seq<LexicalHit>,
    width: nat,
    start: CrossScoreCache,
    totals: Accounting,
    before: HybridRoundBuffers,
    seen: Option<ObservedScoring>,
    result: Result<RoundPlan, FusionError>,
    cache: CrossScoreCache,
    buffers: HybridRoundBuffers,
    seen_after: Option<ObservedScoring>,
) -> bool {
    let candidates = window(vector, width);
    let hits = window(lexical, width);
    let wanted = start.entries.items@.len() + candidates.len() + hits.len();
    let retain = retains(vector, lexical, width);
    if candidates.len() + hits.len() > usize::MAX {
        &&& result matches Err(error) && is_overflow(error)
        &&& seen_after == before.saw_preparation(seen, None)
    } else {
        match before.prepared(totals, candidates.len() as usize, hits.len() as usize) {
            Err(refused) => {
                &&& result matches Err(error) && is_refusal(error, refused)
                &&& before.leaves(
                    buffers,
                    totals,
                    candidates.len() as usize,
                    hits.len() as usize,
                )
                &&& seen_after == before.saw_preparation(seen, None)
            },
            Ok(grown) => {
                let prepared = before.saw_preparation(seen, Some(grown.peak));
                if !all_resolve(segments, sources, hits) {
                    &&& result matches Err(error) && unresolved(segments, sources, hits, error)
                    &&& seen_after == prepared
                } else if retain && wanted > usize::MAX {
                    &&& result matches Err(error) && is_overflow(error)
                    &&& seen_after == prepared
                } else if retain && start.entries.growth(grown.accounting, wanted as usize) is Err {
                    &&& result matches Err(error) && is_refusal(
                        error,
                        start.entries.growth(grown.accounting, wanted as usize)->Err_0,
                    )
                    &&& seen_after == prepared
                } else {
                    &&& result matches Ok(plan) && is_plan(
                        plan,
                        segments,
                        sources,
                        vector,
                        lexical,
                        width,
                        cache,
                        buffers,
                    )
                    &&& seen_after == if retain {
                        start.saw_reservation(prepared, wanted as int, cache)
                    } else {
                        prepared
                    }
                }
            },
        }
    }
}

/// Settles a round before anything is scored: a fresh round forgets the scores
/// of earlier ones; then room in the buffers, identities of both windows, room
/// in the cache, and what is left to score.
#[verifier::rlimit(50)]
pub fn plan_round(
    segments: &Vec<SegmentId>,
    sources: &Vec<StructuredLexicalSource>,
    vector: &Vec<SearchCandidate>,
    lexical: &Vec<LexicalHit>,
    width: usize,
    cache: &mut CrossScoreCache,
    buffers: &mut HybridRoundBuffers,
    accounting: &mut Accounting,
    observer: &mut HybridScoreObserver,
) -> (result: Result<RoundPlan, FusionError>)
    requires
        old(cache).well_formed(),
        old(buffers).well_formed(),
        both_covered(*old(accounting), *old(buffers), *old(cache)),
    ensures
        final(buffers).well_formed(),
        final(cache).well_formed(),
        both_covered(*final(accounting), *final(buffers), *final(cache)),
        final(accounting).budgets == old(accounting).budgets,
        final(accounting).temporary - old(accounting).temporary == (final(buffers).resident_bytes
            - old(buffers).resident_bytes) + (final(cache).entries.bytes
            - old(cache).entries.bytes),
        final(accounting).resident - old(accounting).resident == (final(buffers).resident_bytes
            - old(buffers).resident_bytes) + (final(cache).entries.bytes
            - old(cache).entries.bytes),
        final(observer).fresh_rounds == old(observer).fresh_rounds,
        final(cache).epoch == old(cache).epoch,
        final(cache).sorted == if old(observer).fresh_rounds {
            0
        } else {
            old(cache).sorted
        },
        final(cache).entries.items@ == if old(observer).fresh_rounds {
            Seq::empty()
        } else {
            old(cache).entries.items@
        },
        exists|start: CrossScoreCache, totals: Accounting|
            #[trigger] old(cache).round_starts(
                *old(accounting),
                old(observer).fresh_rounds,
                start,
                totals,
            ) && is_planned(
                segments@,
                sources@,
                vector@,
                lexical@,
                width as nat,
                start,
                totals,
                *old(buffers),
                old(observer)@,
                result,
                *final(cache),
                *final(buffers),
                final(observer)@,
            ),
{
    cache.start_round(observer.fresh_round_test_control(), accounting);
    let ghost start = *cache;
    let ghost totals = *accounting;
    assert(old(cache).round_starts(*old(accounting), old(observer).fresh_rounds, start, totals));
    let vector_end: usize = window_end(vector.len(), width);
    let lexical_end: usize = window_end(lexical.len(), width);
    let ghost candidates = window(vector@, width as nat);
    let ghost hits = window(lexical@, width as nat);
    assert(vector@.take(vector_end as int) == candidates);
    assert(lexical@.take(lexical_end as int) == hits);
    match buffers.prepare(vector_end, lexical_end, accounting, observer) {
        Ok(_) => {},
        Err(error) => {
            return Err(error);
        },
    }
    let vids = collect_vector_ids(vector, vector_end);
    let lids = match collect_lexical_ids(segments, sources, lexical, lexical_end) {
        Ok(ids) => ids,
        Err(error) => {
            return Err(error);
        },
    };
    fill_keys(&mut buffers.vector_keys.items, &vids);
    fill_keys(&mut buffers.lexical_keys.items, &lids);
    proof {
        lemma_key_list_members(vids@);
        lemma_key_list_members(lids@);
    }
    if width < vector.len() || width < lexical.len() {
        match vector_end.checked_add(lexical_end) {
            Some(additional) => match cache.reserve_round(additional, accounting, observer) {
                Ok(_) => {},
                Err(error) => {
                    return Err(error);
                },
            },
            None => {
                assert(false);
            },
        }
    }
    assert(cache.finished() == start.finished());
    let vector_needed = find_needed(
        &lids,
        &buffers.vector_keys.items,
        Ghost(vids@),
        cache,
        CrossScorePolicy::SquaredL2F32,
    );
    let lexical_needed = find_needed(
        &vids,
        &buffers.lexical_keys.items,
        Ghost(lids@),
        cache,
        CrossScorePolicy::Bm25Beir,
    );
    Ok(RoundPlan { vector_ids: vids, lexical_ids: lids, vector_needed, lexical_needed })
}

fn fill_keys(keys: &mut Vec<PhysicalIdentity>, ids: &Vec<PhysicalIdentity>)
    requires
        old(keys)@.len() == 0,
    ensures
        final(keys)@ == key_list(ids@),
{
    let mut at: usize = 0;
    while at < ids.len()
        invariant
            at <= ids@.len(),
            keys@ == ids@.take(at as int),
        decreases ids.len() - at,
    {
        keys.push(ids[at]);
        at = at + 1;
    }
    assert(keys@ == ids@);
    rank_items(keys);
    drop_repeats(keys);
}

proof fn lemma_needed_grows(
    ids: Seq<PhysicalIdentity>,
    n: int,
    present: Seq<PhysicalIdentity>,
    scores: Seq<CachedScore>,
    epoch: Option<EpochIdentity>,
    policy: CrossScorePolicy,
)
    requires
        0 <= n <= ids.len(),
    ensures
        needed(ids.take(n), present, scores, epoch, policy).len() <= needed(
            ids,
            present,
            scores,
            epoch,
            policy,
        ).len(),
        needed(ids, present, scores, epoch, policy).len() <= ids.len(),
    decreases 2 * ids.len() - n,
{
    if n < ids.len() {
        assert(ids.take(n + 1).drop_last() == ids.take(n));
        lemma_needed_grows(ids, n + 1, present, scores, epoch, policy);
    } else {
        assert(ids.take(n) == ids);
        if ids.len() > 0 {
            lemma_needed_grows(ids.drop_last(), ids.len() - 1, present, scores, epoch, policy);
        }
    }
}

proof fn lemma_filled_len(
    ids: Seq<PhysicalIdentity>,
    present: Seq<PhysicalIdentity>,
    scores: Seq<CachedScore>,
    epoch: Option<EpochIdentity>,
    policy: CrossScorePolicy,
    fresh: Seq<u64>,
)
    ensures
        filled(ids, present, scores, epoch, policy, fresh).len() <= ids.len(),
        fresh_entries(ids, present, scores, epoch, policy, fresh).len() == needed(
            ids,
            present,
            scores,
            epoch,
            policy,
        ).len(),
    decreases ids.len(),
{
    if ids.len() > 0 {
        lemma_filled_len(ids.drop_last(), present, scores, epoch, policy, fresh);
    }
}

/// The scores of one side of a round: the cached ones and, in order, the fresh
/// ones, which are added to the cache where a later round can use them. `None`
/// says that the fresh scores ran out.
fn fill_scores(
    ids: &Vec<PhysicalIdentity>,
    keys: &Vec<PhysicalIdentity>,
    Ghost(present): Ghost<Seq<PhysicalIdentity>>,
    policy: CrossScorePolicy,
    fresh: &Vec<u64>,
    retain: bool,
    cache: &mut CrossScoreCache,
) -> (result: Option<(Vec<(usize, u64)>, usize)>)
    requires
        old(cache).well_formed(),
        keys@ == key_list(present),
        retain ==> old(cache).entries.items@.len() + ids@.len() <= old(cache).entries.capacity,
    ensures
        final(cache).well_formed(),
        final(cache).epoch == old(cache).epoch,
        final(cache).sorted == old(cache).sorted,
        final(cache).finished() == old(cache).finished(),
        final(cache).entries.capacity == old(cache).entries.capacity,
        final(cache).entries.bytes == old(cache).entries.bytes,
        ({
            let scores = old(cache).finished();
            let epoch = old(cache).epoch;
            match result {
                Some(pair) => {
                    &&& needed(ids@, present, scores, epoch, policy).len() <= fresh@.len()
                    &&& fill_views(pair.0@) == filled(
                        ids@,
                        present,
                        scores,
                        epoch,
                        policy,
                        fresh@,
                    )
                    &&& pair.1 == needed(ids@, present, scores, epoch, policy).len()
                    &&& forall|i: int| 0 <= i < pair.0@.len() ==> (#[trigger] pair.0@[i]).0 < ids@.len()
                    &&& final(cache).entries.items@ == if retain {
                        old(cache).entries.items@ + fresh_entries(
                            ids@,
                            present,
                            scores,
                            epoch,
                            policy,
                            fresh@,
                        )
                    } else {
                        old(cache).entries.items@
                    }
                },
                None => needed(ids@, present, scores, epoch, policy).len() > fresh@.len(),
            }
        }),
{
    proof {
        lemma_key_list_members(present);
    }
    let ghost scores = cache.finished();
    let ghost epoch = cache.epoch;
    let ghost base = cache.entries.items@;
    let mut fills: Vec<(usize, u64)> = Vec::new();
    let mut used: usize = 0;
    let mut at: usize = 0;
    assert(ids@.take(0) == Seq::<PhysicalIdentity>::empty());
    assert(fill_views(fills@) == Seq::<(int, u64)>::empty());
    assert(base + Seq::<CachedScore>::empty() == base);
    while at < ids.len()
        invariant
            at <= ids@.len(),
            cache.well_formed(),
            cache.epoch == epoch,
            cache.sorted == old(cache).sorted,
            cache.finished() == scores,
            cache.entries.capacity == old(cache).entries.capacity,
            cache.entries.bytes == old(cache).entries.bytes,
            scores == old(cache).finished(),
            epoch == old(cache).epoch,
            base == old(cache).entries.items@,
            is_ranked(keys@),
            forall|id: PhysicalIdentity| #[trigger] keys@.contains(id) <==> present.contains(id),
            used <= fresh@.len(),
            used == needed(ids@.take(at as int), present, scores, epoch, policy).len(),
            used <= at,
            fill_views(fills@) == filled(
                ids@.take(at as int),
                present,
                scores,
                epoch,
                policy,
                fresh@,
            ),
            forall|i: int| 0 <= i < fills@.len() ==> (#[trigger] fills@[i]).0 < at,
            retain ==> base.len() + ids@.len() <= cache.entries.capacity,
            fresh_entries(ids@.take(at as int), present, scores, epoch, policy, fresh@).len()
                == used,
            cache.entries.items@ == if retain {
                base + fresh_entries(
                    ids@.take(at as int),
                    present,
                    scores,
                    epoch,
                    policy,
                    fresh@,
                )
            } else {
                base
            },
        decreases ids.len() - at,
    {
        let ghost prefix = ids@.take(at + 1);
        assert(prefix.drop_last() == ids@.take(at as int));
        assert(prefix.last() == ids@[at as int]);
        let identity = ids[at];
        let ghost views = fill_views(fills@);
        if !is_member(keys, identity) {
            let key = cache.key(identity, policy);
            match cache.get(key) {
                Some(bits) => {
                    fills.push((at, bits));
                    assert(fill_views(fills@) == views.push((at as int, bits)));
                },
                None => {
                    if used >= fresh.len() {
                        proof {
                            lemma_needed_grows(ids@, at + 1, present, scores, epoch, policy);
                        }
                        return None;
                    }
                    let bits: u64 = fresh[used];
                    let ghost entries = fresh_entries(
                        ids@.take(at as int),
                        present,
                        scores,
                        epoch,
                        policy,
                        fresh@,
                    );
                    used = used + 1;
                    fills.push((at, bits));
                    assert(fill_views(fills@) == views.push((at as int, bits)));
                    if retain {
                        cache.insert(key, bits);
                        assert(base + entries.push(CachedScore { key, bits }) == (base
                            + entries).push(CachedScore { key, bits }));
                    }
                },
            }
        }
        at = at + 1;
    }
    assert(ids@.take(at as int) == ids@);
    Some((fills, used))
}

/// Places and bits of fills.
pub open spec fn fill_views(fills: Seq<(usize, u64)>) -> Seq<(int, u64)> {
    fills.map_values(|fill: (usize, u64)| (fill.0 as int, fill.1))
}

fn bits_of_distances(scores: &Vec<Score>) -> (bits: Vec<u64>)
    ensures
        bits@ == distance_bits(scores@),
{
    let mut bits: Vec<u64> = Vec::with_capacity(scores.len());
    let mut at: usize = 0;
    while at < scores.len()
        invariant
            at <= scores@.len(),
            bits@ == distance_bits(scores@.take(at as int)),
        decreases scores.len() - at,
    {
        bits.push(scores[at].bits as u64);
        at = at + 1;
        assert(bits@ == distance_bits(scores@.take(at as int)));
    }
    assert(scores@.take(at as int) == scores@);
    bits
}

fn bits_of_scores(scores: &Vec<Double>) -> (bits: Vec<u64>)
    ensures
        bits@ == lexical_bits(scores@),
{
    let mut bits: Vec<u64> = Vec::with_capacity(scores.len());
    let mut at: usize = 0;
    while at < scores.len()
        invariant
            at <= scores@.len(),
            bits@ == lexical_bits(scores@.take(at as int)),
        decreases scores.len() - at,
    {
        bits.push(scores[at].bits);
        at = at + 1;
        assert(bits@ == lexical_bits(scores@.take(at as int)));
    }
    assert(scores@.take(at as int) == scores@);
    bits
}

fn document_key(document: Option<DocumentVersion>) -> (key: Option<DocId>)
    ensures
        key == key_of_document(document),
{
    match document {
        Some(version) => Some(version.doc_id),
        None => None,
    }
}

fn has_conflict(entries: &Vec<AddressEntry>) -> (result: bool)
    requires
        is_ranked(entries@),
    ensures
        result == conflicts(entries@),
{
    let mut at: usize = 1;
    while at < entries.len()
        invariant
            1 <= at,
            is_ranked(entries@),
            forall|i: int, j: int|
                0 <= i < at && 0 <= j < at && i < entries@.len() && j < entries@.len() && (
                #[trigger] entries@[i]).key == (#[trigger] entries@[j]).key ==> entries@[i]
                    == entries@[j],
        decreases entries.len() - at,
    {
        if entries[at - 1].key == entries[at].key && entries[at - 1] != entries[at] {
            assert(entries@[at - 1].key == entries@[at as int].key);
            return true;
        }
        assert forall|i: int| 0 <= i < at && (#[trigger] entries@[i]).key == entries@[at as int].key
            implies entries@[i] == entries@[at as int] by {
            if i < at - 1 {
                assert(!before(entries@[at - 1].rank(), entries@[i].rank()));
            }
            assert(!before(entries@[at as int].rank(), entries@[at - 1].rank()));
            assert(entries@[at - 1].key == entries@[at as int].key);
        }
        at = at + 1;
    }
    false
}

proof fn lemma_conflicts_of_ranked(entries: Seq<AddressEntry>)
    ensures
        conflicts(ranked(entries)) <==> conflicts(entries),
{
    lemma_ranked_is_permutation(entries);
    let sorted = ranked(entries);
    lemma_permutation_keeps_members(entries, sorted);
    if conflicts(entries) {
        let (i, j) = choose|i: int, j: int|
            0 <= i < entries.len() && 0 <= j < entries.len() && (#[trigger] entries[i]).key == (
            #[trigger] entries[j]).key && entries[i] != entries[j];
        assert(entries.contains(entries[i]));
        assert(entries.contains(entries[j]));
        let m = choose|m: int| 0 <= m < sorted.len() && sorted[m] == entries[i];
        let n = choose|n: int| 0 <= n < sorted.len() && sorted[n] == entries[j];
        assert(sorted[m].key == sorted[n].key);
    }
    if conflicts(sorted) {
        let (i, j) = choose|i: int, j: int|
            0 <= i < sorted.len() && 0 <= j < sorted.len() && (#[trigger] sorted[i]).key == (
            #[trigger] sorted[j]).key && sorted[i] != sorted[j];
        assert(sorted.contains(sorted[i]));
        assert(sorted.contains(sorted[j]));
        assert(entries.contains(sorted[i]));
        assert(entries.contains(sorted[j]));
        let m = choose|m: int| 0 <= m < entries.len() && entries[m] == sorted[i];
        let n = choose|n: int| 0 <= n < entries.len() && entries[n] == sorted[j];
        assert(entries[m].key == entries[n].key);
    }
}

fn push_addresses(list: &mut Vec<AddressEntry>, keys: &Vec<PhysicalIdentity>)
    ensures
        final(list)@ == old(list)@ + address_list(keys@),
        address_list(keys@).len() <= keys@.len(),
{
    let ghost base = list@;
    let mut at: usize = 0;
    assert(base + Seq::<AddressEntry>::empty() == base);
    while at < keys.len()
        invariant
            at <= keys@.len(),
            list@ == base + address_list(keys@.take(at as int)),
            address_list(keys@.take(at as int)).len() <= at,
        decreases keys.len() - at,
    {
        let ghost prefix = keys@.take(at + 1);
        assert(prefix.drop_last() == keys@.take(at as int));
        assert(prefix.last() == keys@[at as int]);
        let identity = keys[at];
        match identity.document {
            Some(version) => {
                list.push(
                    AddressEntry {
                        key: version.doc_id,
                        row_id: identity.row,
                        document: identity.document,
                    },
                );
            },
            None => {},
        }
        assert(list@ == base + address_list(prefix));
        at = at + 1;
    }
    assert(keys@.take(at as int) == keys@);
}

/// Why there is no room for so many addresses, if there is none.
pub open spec fn address_refusal(accounting: Accounting, capacity: nat) -> Option<StoreError> {
    if capacity == 0 {
        None
    } else {
        match Accounted::<AddressEntry>::cost(
            accounting,
            AllocationComponent::Temporary,
            capacity as usize,
        ) {
            Err(refused) => Some(refused),
            Ok(_) => None,
        }
    }
}

/// The addresses can be kept: there is room for them, and no document key stands
/// for two places.
pub open spec fn addresses_fit(
    entries: Seq<AddressEntry>,
    capacity: nat,
    accounting: Accounting,
) -> bool {
    &&& capacity <= usize::MAX
    &&& address_refusal(accounting, capacity) is None
    &&& !conflicts(entries)
}

/// Why the addresses cannot be kept: they cannot be counted, there is no room
/// for them, or they are in conflict.
pub open spec fn addresses_refused(
    error: FusionError,
    entries: Seq<AddressEntry>,
    capacity: nat,
    accounting: Accounting,
) -> bool {
    if capacity > usize::MAX {
        is_overflow(error)
    } else {
        match address_refusal(accounting, capacity) {
            Some(refused) => is_refusal(error, refused),
            None => conflicts(entries) && is_vector_invariant(
                error,
                "hybrid document key names conflicting ranked source versions"@,
            ),
        }
    }
}

/// Collects where the documents of both windows were found, in key order.
fn collect_addresses(
    vector_keys: &Vec<PhysicalIdentity>,
    lexical_keys: &Vec<PhysicalIdentity>,
    accounting: &mut Accounting,
) -> (result: Result<Accounted<AddressEntry>, FusionError>)
    ensures
        final(accounting).budgets == old(accounting).budgets,
        ({
            let entries = address_list(vector_keys@) + address_list(lexical_keys@);
            match result {
                Ok(addresses) => {
                    &&& is_scratch(addresses)
                    &&& addresses.items@ == ranked(entries)
                    &&& addresses_fit(
                        entries,
                        vector_keys@.len() + lexical_keys@.len(),
                        *old(accounting),
                    )
                    &&& final(accounting).temporary == old(accounting).temporary + addresses.bytes
                    &&& final(accounting).resident == old(accounting).resident + addresses.bytes
                },
                Err(error) => {
                    &&& addresses_refused(
                        error,
                        entries,
                        vector_keys@.len() + lexical_keys@.len(),
                        *old(accounting),
                    )
                    &&& final(accounting).temporary == old(accounting).temporary
                    &&& final(accounting).resident == old(accounting).resident
                },
            }
        }),
{
    let capacity: usize = match vector_keys.len().checked_add(lexical_keys.len()) {
        Some(sum) => sum,
        None => {
            return Err(overflow());
        },
    };
    let mut addresses: Accounted<AddressEntry> = Accounted::unaccounted_empty(
        AllocationComponent::Temporary,
    );
    match addresses.try_reserve_total(accounting, capacity) {
        Ok(_) => {},
        Err(error) => {
            return Err(refusal(error));
        },
    }
    let ghost entries = address_list(vector_keys@) + address_list(lexical_keys@);
    push_addresses(&mut addresses.items, vector_keys);
    push_addresses(&mut addresses.items, lexical_keys);
    assert(addresses.items@ == entries);
    rank_items(&mut addresses.items);
    proof {
        lemma_ranked_is_permutation(entries);
        lemma_ranked_is_ranked(entries);
        lemma_conflicts_of_ranked(entries);
    }
    if has_conflict(&addresses.items) {
        addresses.release(accounting);
        return Err(
            vector_invariant("hybrid document key names conflicting ranked source versions"),
        );
    }
    Ok(addresses)
}

/// Facts of a built round, list by list.
pub open spec fn is_round(
    round: HybridRound,
    segments: Seq<SegmentId>,
    sources: Seq<StructuredLexicalSource>,
    vector: Seq<SearchCandidate>,
    lexical: Seq<LexicalHit>,
    width: nat,
    anchors: HybridAnchors,
    scores: Seq<CachedScore>,
    epoch: Option<EpochIdentity>,
    distances: Seq<Score>,
    lexical_scores: Seq<Double>,
    buffers: HybridRoundBuffers,
) -> bool {
    let candidates = window(vector, width);
    let hits = window(lexical, width);
    let vids = vector_ids(candidates);
    let lids = lexical_ids(segments, sources, hits);
    let vector_fills = filled(
        lids,
        vids,
        scores,
        epoch,
        CrossScorePolicy::SquaredL2F32,
        distance_bits(distances),
    );
    let lexical_fills = filled(
        vids,
        lids,
        scores,
        epoch,
        CrossScorePolicy::Bm25Beir,
        lexical_bits(lexical_scores),
    );
    &&& buffers.vector.items@ == round_vector(candidates, hits, vector_fills)
    &&& buffers.lexical.items@ == round_lexical(candidates, hits, lexical_fills)
    &&& round.vector_bounds == if candidates.len() + vector_fills.len() == 0 {
        None
    } else {
        Some(
            VectorBounds {
                max_squared_l2: anchors.vector_ceiling->0,
                next_unseen_squared_l2: if width < vector.len() {
                    Some(vector[width as int].score.spec_negated())
                } else {
                    None
                },
            },
        )
    }
    &&& round.lexical_bounds == (LexicalBounds {
        max_bm25: anchors.lexical_maximum,
        next_unseen_bm25: if width < lexical.len() {
            Some(lexical[width as int].bm25)
        } else {
            None
        },
    })
    &&& round.cross_filled_vector == vector_fills.len()
    &&& round.cross_filled_lexical == lexical_fills.len()
    &&& round.vector_scores_computed == needed(
        lids,
        vids,
        scores,
        epoch,
        CrossScorePolicy::SquaredL2F32,
    ).len()
    &&& round.lexical_scores_computed == needed(
        vids,
        lids,
        scores,
        epoch,
        CrossScorePolicy::Bm25Beir,
    ).len()
}

/// The entries of the cache once a round has inserted its fresh scores.
pub open spec fn entries_after(
    before: Seq<CachedScore>,
    scores: Seq<CachedScore>,
    epoch: Option<EpochIdentity>,
    vids: Seq<PhysicalIdentity>,
    lids: Seq<PhysicalIdentity>,
    distances: Seq<Score>,
    lexical_scores: Seq<Double>,
    retain: bool,
) -> Seq<CachedScore> {
    if retain {
        before + fresh_entries(
            lids,
            vids,
            scores,
            epoch,
            CrossScorePolicy::SquaredL2F32,
            distance_bits(distances),
        ) + fresh_entries(
            vids,
            lids,
            scores,
            epoch,
            CrossScorePolicy::Bm25Beir,
            lexical_bits(lexical_scores),
        )
    } else {
        before
    }
}

fn push_own_vector(list: &mut Vec<VectorCandidate>, candidates: &Vec<SearchCandidate>, end: usize)
    requires
        old(list)@.len() == 0,
        end <= candidates@.len(),
    ensures
        final(list)@ == candidates@.take(end as int).map_values(
            |candidate: SearchCandidate| own_vector(candidate),
        ),
{
    let mut at: usize = 0;
    while at < end
        invariant
            at <= end <= candidates@.len(),
            list@ == candidates@.take(at as int).map_values(
                |candidate: SearchCandidate| own_vector(candidate),
            ),
        decreases end - at,
    {
        let candidate = candidates[at];
        let document = document_key(candidate.document);
        let squared_l2 = candidate.score.negated();
        if candidate.exact_score {
            list.push(VectorCandidate::exact(document, squared_l2));
        } else {
            list.push(VectorCandidate::estimated(document, squared_l2));
        }
        at = at + 1;
        assert(list@ == candidates@.take(at as int).map_values(
            |candidate: SearchCandidate| own_vector(candidate),
        ));
    }
}

fn push_own_lexical(list: &mut Vec<LexicalCandidate>, hits: &Vec<LexicalHit>, end: usize)
    requires
        old(list)@.len() == 0,
        end <= hits@.len(),
    ensures
        final(list)@ == hits@.take(end as int).map_values(|hit: LexicalHit| own_lexical(hit)),
{
    let mut at: usize = 0;
    while at < end
        invariant
            at <= end <= hits@.len(),
            list@ == hits@.take(at as int).map_values(|hit: LexicalHit| own_lexical(hit)),
        decreases end - at,
    {
        let hit = hits[at];
        list.push(LexicalCandidate { document: document_key(hit.document), bm25: hit.bm25 });
        at = at + 1;
        assert(list@ == hits@.take(at as int).map_values(|hit: LexicalHit| own_lexical(hit)));
    }
}

fn push_cross_vector(
    list: &mut Vec<VectorCandidate>,
    hits: &Vec<LexicalHit>,
    end: usize,
    fills: &Vec<(usize, u64)>,
)
    requires
        end <= hits@.len(),
        forall|i: int| 0 <= i < fills@.len() ==> (#[trigger] fills@[i]).0 < end,
    ensures
        final(list)@ == old(list)@ + cross_vector(hits@.take(end as int), fill_views(fills@)),
{
    let ghost base = list@;
    let ghost seen = hits@.take(end as int);
    let mut at: usize = 0;
    assert(base + cross_vector(seen, fill_views(fills@.take(0))) == base);
    while at < fills.len()
        invariant
            at <= fills@.len(),
            end <= hits@.len(),
            seen == hits@.take(end as int),
            forall|i: int| 0 <= i < fills@.len() ==> (#[trigger] fills@[i]).0 < end,
            list@ == base + cross_vector(seen, fill_views(fills@.take(at as int))),
        decreases fills.len() - at,
    {
        let fill: (usize, u64) = fills[at];
        assert(fills@[at as int].0 < end);
        list.push(
            VectorCandidate::exact(
                document_key(hits[fill.0].document),
                Score { bits: #[verifier::truncate] (fill.1 as u32) },
            ),
        );
        at = at + 1;
        assert(list@ == base + cross_vector(seen, fill_views(fills@.take(at as int))));
    }
    assert(fills@.take(at as int) == fills@);
}

fn push_cross_lexical(
    list: &mut Vec<LexicalCandidate>,
    candidates: &Vec<SearchCandidate>,
    end: usize,
    fills: &Vec<(usize, u64)>,
)
    requires
        end <= candidates@.len(),
        forall|i: int| 0 <= i < fills@.len() ==> (#[trigger] fills@[i]).0 < end,
    ensures
        final(list)@ == old(list)@ + cross_lexical(
            candidates@.take(end as int),
            fill_views(fills@),
        ),
{
    let ghost base = list@;
    let ghost seen = candidates@.take(end as int);
    let mut at: usize = 0;
    assert(base + cross_lexical(seen, fill_views(fills@.take(0))) == base);
    while at < fills.len()
        invariant
            at <= fills@.len(),
            end <= candidates@.len(),
            seen == candidates@.take(end as int),
            forall|i: int| 0 <= i < fills@.len() ==> (#[trigger] fills@[i]).0 < end,
            list@ == base + cross_lexical(seen, fill_views(fills@.take(at as int))),
        decreases fills.len() - at,
    {
        let fill: (usize, u64) = fills[at];
        assert(fills@[at as int].0 < end);
        list.push(
            LexicalCandidate {
                document: document_key(candidates[fill.0].document),
                bm25: Double { bits: fill.1 },
            },
        );
        at = at + 1;
        assert(list@ == base + cross_lexical(seen, fill_views(fills@.take(at as int))));
    }
    assert(fills@.take(at as int) == fills@);
}

/// Builds a planned round from the scores that were left to compute:
/// `distances` for the lexical hits and `lexical_scores` for the vector hits
/// that the plan names, in its order, with the work that these took.
#[verifier::rlimit(80)]
pub fn build_round(
    plan: &RoundPlan,
    segments: &Vec<SegmentId>,
    sources: &Vec<StructuredLexicalSource>,
    vector: &Vec<SearchCandidate>,
    lexical: &Vec<LexicalHit>,
    width: usize,
    anchors: HybridAnchors,
    capture_rows: bool,
    distances: &Vec<Score>,
    lexical_scores: &Vec<Double>,
    lexical_counters: SearchCounters,
    cache: &mut CrossScoreCache,
    buffers: &mut HybridRoundBuffers,
    accounting: &mut Accounting,
) -> (result: Result<HybridRound, FusionError>)
    requires
        old(cache).well_formed(),
        old(buffers).well_formed(),
        is_plan(
            *plan,
            segments@,
            sources@,
            vector@,
            lexical@,
            width as nat,
            *old(cache),
            *old(buffers),
        ),
        distances@.len() == plan.vector_needed@.len(),
    ensures
        final(buffers).well_formed(),
        final(buffers).resident_bytes == old(buffers).resident_bytes,
        final(buffers).vector_keys == old(buffers).vector_keys,
        final(buffers).lexical_keys == old(buffers).lexical_keys,
        final(cache).epoch == old(cache).epoch,
        final(cache).entries.bytes == old(cache).entries.bytes,
        final(accounting).budgets == old(accounting).budgets,
        ({
            let after = entries_after(
                old(cache).entries.items@,
                old(cache).finished(),
                old(cache).epoch,
                plan.vector_ids@,
                plan.lexical_ids@,
                distances@,
                lexical_scores@,
                retains(vector@, lexical@, width as nat),
            );
            let entries = address_list(old(buffers).vector_keys.items@) + address_list(
                old(buffers).lexical_keys.items@,
            );
            let vector_empty = window(vector@, width as nat).len() + filled(
                plan.lexical_ids@,
                plan.vector_ids@,
                old(cache).finished(),
                old(cache).epoch,
                CrossScorePolicy::SquaredL2F32,
                distance_bits(distances@),
            ).len() == 0;
            match result {
                Ok(round) => {
                    &&& lexical_scores@.len() == plan.lexical_needed@.len()
                    &&& keys_are_distinct(after)
                    &&& vector_empty || anchors.vector_ceiling is Some
                    &&& round.lexical_counters == lexical_counters
                    &&& final(cache).well_formed()
                    &&& final(cache).finished() == ranked(after)
                    &&& is_round(
                        round,
                        segments@,
                        sources@,
                        vector@,
                        lexical@,
                        width as nat,
                        anchors,
                        old(cache).finished(),
                        old(cache).epoch,
                        distances@,
                        lexical_scores@,
                        *final(buffers),
                    )
                    &&& match round.addresses {
                        Some(addresses) => {
                            &&& capture_rows
                            &&& is_scratch(addresses)
                            &&& addresses_fit(
                                entries,
                                old(buffers).vector_keys.items@.len() + old(
                                    buffers,
                                ).lexical_keys.items@.len(),
                                *old(accounting),
                            )
                            &&& addresses.items@ == ranked(entries)
                            &&& final(accounting).temporary == old(accounting).temporary
                                + addresses.bytes
                            &&& final(accounting).resident == old(accounting).resident
                                + addresses.bytes
                        },
                        None => !capture_rows && *final(accounting) == *old(accounting),
                    }
                },
                Err(error) => {
                    &&& *final(accounting) == *old(accounting)
                    &&& if lexical_scores@.len() < plan.lexical_needed@.len() {
                        is_lexical_invariant(
                            error,
                            "hybrid candidate has no completed exact lexical score"@,
                        )
                    } else if lexical_scores@.len() > plan.lexical_needed@.len() {
                        is_lexical_invariant(
                            error,
                            "hybrid cross-scorer returned an unexpected extra lexical score"@,
                        )
                    } else if !keys_are_distinct(after) {
                        is_lexical_invariant(
                            error,
                            "hybrid cross-score cache contains a duplicate physical row/policy"@,
                        )
                    } else if !vector_empty && anchors.vector_ceiling is None {
                        is_vector_invariant(
                            error,
                            "bounded hybrid vector leg did not report the farthest alive row"@,
                        )
                    } else {
                        capture_rows && addresses_refused(
                            error,
                            entries,
                            old(buffers).vector_keys.items@.len() + old(
                                buffers,
                            ).lexical_keys.items@.len(),
                            *old(accounting),
                        )
                    }
                },
            }
        }),
{
    let vector_end: usize = window_end(vector.len(), width);
    let lexical_end: usize = window_end(lexical.len(), width);
    let retain = width < vector.len() || width < lexical.len();
    let ghost candidates = window(vector@, width as nat);
    let ghost hits = window(lexical@, width as nat);
    assert(vector@.take(vector_end as int) == candidates);
    assert(lexical@.take(lexical_end as int) == hits);
    let ghost vids = plan.vector_ids@;
    let ghost lids = plan.lexical_ids@;
    let ghost scores = cache.finished();
    let ghost epoch = cache.epoch;
    proof {
        lemma_filled_len(
            lids,
            vids,
            scores,
            epoch,
            CrossScorePolicy::SquaredL2F32,
            distance_bits(distances@),
        );
        lemma_filled_len(
            vids,
            lids,
            scores,
            epoch,
            CrossScorePolicy::Bm25Beir,
            lexical_bits(lexical_scores@),
        );
        lemma_needed_grows(lids, 0, vids, scores, epoch, CrossScorePolicy::SquaredL2F32);
    }
    let distance_values = bits_of_distances(distances);
    let (vector_fills, vector_scores_computed): (Vec<(usize, u64)>, usize) = match fill_scores(
        &plan.lexical_ids,
        &buffers.vector_keys.items,
        Ghost(vids),
        CrossScorePolicy::SquaredL2F32,
        &distance_values,
        retain,
        cache,
    ) {
        Some(pair) => pair,
        None => {
            assert(false);
            return Err(lexical_invariant("hybrid candidate has no completed exact lexical score"));
        },
    };
    let lexical_values = bits_of_scores(lexical_scores);
    let (lexical_fills, lexical_scores_computed): (Vec<(usize, u64)>, usize) = match fill_scores(
        &plan.vector_ids,
        &buffers.lexical_keys.items,
        Ghost(lids),
        CrossScorePolicy::Bm25Beir,
        &lexical_values,
        retain,
        cache,
    ) {
        Some(pair) => pair,
        None => {
            return Err(lexical_invariant("hybrid candidate has no completed exact lexical score"));
        },
    };
    if lexical_scores_computed < lexical_scores.len() {
        return Err(
            lexical_invariant("hybrid cross-scorer returned an unexpected extra lexical score"),
        );
    }
    match cache.finish_round() {
        Ok(_) => {},
        Err(error) => {
            return Err(error);
        },
    }
    push_own_vector(&mut buffers.vector.items, vector, vector_end);
    push_cross_vector(&mut buffers.vector.items, lexical, lexical_end, &vector_fills);
    push_own_lexical(&mut buffers.lexical.items, lexical, lexical_end);
    push_cross_lexical(&mut buffers.lexical.items, vector, vector_end, &lexical_fills);
    proof {
        lemma_ranked_is_permutation(buffers.vector.items@);
        lemma_ranked_is_permutation(buffers.lexical.items@);
    }
    rank_items(&mut buffers.vector.items);
    rank_items(&mut buffers.lexical.items);
    let vector_bounds = if buffers.vector.items.len() == 0 {
        None
    } else {
        match anchors.vector_ceiling {
            Some(maximum) => Some(
                VectorBounds {
                    max_squared_l2: maximum,
                    next_unseen_squared_l2: if width < vector.len() {
                        Some(vector[width].score.negated())
                    } else {
                        None
                    },
                },
            ),
            None => {
                return Err(
                    vector_invariant(
                        "bounded hybrid vector leg did not report the farthest alive row",
                    ),
                );
            },
        }
    };
    let lexical_bounds = LexicalBounds {
        max_bm25: anchors.lexical_maximum,
        next_unseen_bm25: if width < lexical.len() {
            Some(lexical[width].bm25)
        } else {
            None
        },
    };
    let addresses = if capture_rows {
        match collect_addresses(
            &buffers.vector_keys.items,
            &buffers.lexical_keys.items,
            accounting,
        ) {
            Ok(addresses) => Some(addresses),
            Err(error) => {
                return Err(error);
            },
        }
    } else {
        None
    };
    Ok(
        HybridRound {
            addresses,
            vector_bounds,
            lexical_bounds,
            cross_filled_vector: vector_fills.len(),
            cross_filled_lexical: lexical_fills.len(),
            lexical_counters,
            vector_scores_computed,
            lexical_scores_computed,
        },
    )
}

/// Without readable scores a round scores every row that it fills in; with them
/// it never scores more than it fills in.
pub proof fn lemma_fresh_round_scores_every_fill(
    ids: Seq<PhysicalIdentity>,
    present: Seq<PhysicalIdentity>,
    scores: Seq<CachedScore>,
    epoch: Option<EpochIdentity>,
    policy: CrossScorePolicy,
    fresh: Seq<u64>,
)
    ensures
        needed(ids, present, scores, epoch, policy).len() <= filled(
            ids,
            present,
            scores,
            epoch,
            policy,
            fresh,
        ).len(),
        scores.len() == 0 ==> needed(ids, present, scores, epoch, policy).len() == filled(
            ids,
            present,
            scores,
            epoch,
            policy,
            fresh,
        ).len(),
    decreases ids.len(),
{
    if ids.len() > 0 {
        lemma_fresh_round_scores_every_fill(
            ids.drop_last(),
            present,
            scores,
            epoch,
            policy,
            fresh,
        );
    }
}

} // verus!
