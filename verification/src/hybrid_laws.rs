//! What a round of a hybrid search holds, in terms of the windows of both legs.

use crate::accounting::Accounting;
use crate::candidates::LexicalCandidate;
use crate::candidates::LexicalHit;
use crate::candidates::SearchCandidate;
use crate::candidates::SearchCounters;
use crate::candidates::StructuredLexicalSource;
use crate::candidates::VectorCandidate;
use crate::cross_score::CachedScore;
use crate::cross_score::CrossScoreCache;
use crate::cross_score::CrossScoreKey;
use crate::cross_score::CrossScorePolicy;
use crate::fusion::FusionError;
use crate::hybrid::HybridRoundBuffers;
use crate::identity::lemma_without_repeats_members;
use crate::identity::PhysicalIdentity;
use crate::ids::DocId;
use crate::ids::DocumentVersion;
use crate::ids::EpochIdentity;
use crate::ids::GlobalRowId;
use crate::ids::RowSource;
use crate::ids::SegmentId;
use crate::observations::HybridScoreObserver;
use crate::rank::lemma_permutation_keeps_members;
use crate::rank::lemma_ranked_is_permutation;
use crate::rank::lemma_ranked_is_ranked;
use crate::rank::ranked;
use crate::round::address_list;
use crate::round::build_round;
use crate::round::cached;
use crate::round::cross_lexical;
use crate::round::cross_vector;
use crate::round::distance_bits;
use crate::round::filled;
use crate::round::fresh_entries;
use crate::round::is_plan;
use crate::round::key_list;
use crate::round::lexical_bits;
use crate::round::lexical_ids;
use crate::round::needed;
use crate::round::own_lexical;
use crate::round::own_vector;
use crate::round::plan_round;
use crate::round::round_lexical;
use crate::round::round_vector;
use crate::round::vector_ids;
use crate::round::window;
use crate::round::AddressEntry;
use crate::round::HybridAnchors;
use crate::round::HybridRound;
use crate::round::RoundPlan;
use crate::score::Double;
use crate::score::Score;
use vstd::prelude::*;

verus! {

/// How many of `len` items a window of one width holds.
pub open spec fn window_len(len: nat, width: nat) -> nat {
    if width < len {
        width
    } else {
        len
    }
}

/// What a vector candidate is the same as: its row and the document pinned for it.
pub open spec fn identity_of_candidate(candidate: SearchCandidate) -> PhysicalIdentity {
    PhysicalIdentity { row: candidate.row_id, document: candidate.document }
}

/// What a lexical hit is the same as: the row that it names, in the segment that its
/// source stands for, and the document pinned for it.
pub open spec fn identity_of_hit(
    segments: Seq<SegmentId>,
    sources: Seq<StructuredLexicalSource>,
    hit: LexicalHit,
) -> PhysicalIdentity {
    PhysicalIdentity {
        row: GlobalRowId {
            source: match sources[hit.doc.segment as int] {
                StructuredLexicalSource::Active => RowSource::Active,
                StructuredLexicalSource::Sealed(slot) => RowSource::Sealed(segments[slot as int]),
            },
            local_row: hit.doc.row,
        },
        document: hit.document,
    }
}

/// Whether every hit of a window names a source that is there.
pub open spec fn hits_resolve(
    segments: Seq<SegmentId>,
    sources: Seq<StructuredLexicalSource>,
    hits: Seq<LexicalHit>,
    end: nat,
) -> bool {
    forall|j: int|
        0 <= j < end ==> (#[trigger] hits[j]).doc.segment < sources.len() && (
        sources[hits[j].doc.segment as int] matches StructuredLexicalSource::Sealed(slot) ==> slot
            < segments.len())
}

/// Whether the vector window holds an identity.
pub open spec fn vector_holds(
    vector: Seq<SearchCandidate>,
    end: nat,
    identity: PhysicalIdentity,
) -> bool {
    exists|i: int| 0 <= i < end && identity_of_candidate(#[trigger] vector[i]) == identity
}

/// Whether the lexical window holds an identity.
pub open spec fn lexical_holds(
    segments: Seq<SegmentId>,
    sources: Seq<StructuredLexicalSource>,
    lexical: Seq<LexicalHit>,
    end: nat,
    identity: PhysicalIdentity,
) -> bool {
    exists|j: int|
        0 <= j < end && identity_of_hit(segments, sources, #[trigger] lexical[j]) == identity
}

/// The document key of an identity, where it has a document.
pub open spec fn document_key_of(document: Option<DocumentVersion>) -> Option<DocId> {
    match document {
        Some(version) => Some(version.doc_id),
        None => None,
    }
}

/// Whether the cache holds a score of an identity under a policy.
pub open spec fn holds_score(
    scores: Seq<CachedScore>,
    epoch: Option<EpochIdentity>,
    identity: PhysicalIdentity,
    policy: CrossScorePolicy,
    bits: u64,
) -> bool {
    exists|c: int|
        0 <= c < scores.len() && (#[trigger] scores[c]).key == (CrossScoreKey {
            identity,
            epoch,
            policy,
        }) && scores[c].bits == bits
}

/// Whether the cache holds no score of an identity under a policy.
pub open spec fn lacks_score(
    scores: Seq<CachedScore>,
    epoch: Option<EpochIdentity>,
    identity: PhysicalIdentity,
    policy: CrossScorePolicy,
) -> bool {
    forall|c: int|
        0 <= c < scores.len() ==> (#[trigger] scores[c]).key != (CrossScoreKey {
            identity,
            epoch,
            policy,
        })
}

/// Whether a score is that of the row at one place: the one that the cache holds of its
/// identity, and where it holds none the one that was computed for this very place.
pub open spec fn is_score_of_place(
    scores: Seq<CachedScore>,
    epoch: Option<EpochIdentity>,
    identity: PhysicalIdentity,
    policy: CrossScorePolicy,
    places: Seq<usize>,
    fresh: Seq<u64>,
    place: int,
    bits: u64,
) -> bool {
    ||| holds_score(scores, epoch, identity, policy, bits)
    ||| lacks_score(scores, epoch, identity, policy) && exists|p: int|
        0 <= p < places.len() && #[trigger] places[p] == place && fresh[p] == bits
}

/// How many of the first `n` identities another list lacks.
pub open spec fn count_missing(
    ids: Seq<PhysicalIdentity>,
    present: Seq<PhysicalIdentity>,
    n: nat,
) -> nat
    decreases n,
{
    if n == 0 {
        0
    } else {
        count_missing(ids, present, (n - 1) as nat) + if present.contains(ids[n - 1]) {
            0nat
        } else {
            1nat
        }
    }
}

proof fn lemma_cached_scores(
    scores: Seq<CachedScore>,
    epoch: Option<EpochIdentity>,
    identity: PhysicalIdentity,
    policy: CrossScorePolicy,
)
    ensures
        match cached(scores, epoch, identity, policy) {
            Some(bits) => holds_score(scores, epoch, identity, policy, bits),
            None => lacks_score(scores, epoch, identity, policy),
        },
{
}

proof fn lemma_needed_places(
    ids: Seq<PhysicalIdentity>,
    present: Seq<PhysicalIdentity>,
    scores: Seq<CachedScore>,
    epoch: Option<EpochIdentity>,
    policy: CrossScorePolicy,
)
    requires
        ids.len() <= usize::MAX,
    ensures
        ({
            let places = needed(ids, present, scores, epoch, policy);
            &&& forall|p: int|
                0 <= p < places.len() ==> {
                    let i = (#[trigger] places[p]) as int;
                    i < ids.len() && !present.contains(ids[i]) && lacks_score(
                        scores,
                        epoch,
                        ids[i],
                        policy,
                    )
                }
            &&& forall|p: int, q: int|
                0 <= p < q < places.len() ==> (#[trigger] places[p]) < (#[trigger] places[q])
            &&& forall|i: int|
                0 <= i < ids.len() && !present.contains(#[trigger] ids[i]) && lacks_score(
                    scores,
                    epoch,
                    ids[i],
                    policy,
                ) ==> exists|p: int| 0 <= p < places.len() && #[trigger] places[p] == i
        }),
    decreases ids.len(),
{
    if ids.len() > 0 {
        let rest = ids.drop_last();
        lemma_needed_places(rest, present, scores, epoch, policy);
        lemma_cached_scores(scores, epoch, ids.last(), policy);
        let earlier = needed(rest, present, scores, epoch, policy);
        let places = needed(ids, present, scores, epoch, policy);
        assert forall|p: int| 0 <= p < places.len() implies {
            let i = (#[trigger] places[p]) as int;
            i < ids.len() && !present.contains(ids[i]) && lacks_score(
                scores,
                epoch,
                ids[i],
                policy,
            )
        } by {
            if p < earlier.len() {
                assert(places[p] == earlier[p]);
                assert(rest[earlier[p] as int] == ids[earlier[p] as int]);
            }
        }
        assert forall|i: int|
            0 <= i < ids.len() && !present.contains(#[trigger] ids[i]) && lacks_score(
                scores,
                epoch,
                ids[i],
                policy,
            ) implies exists|p: int| 0 <= p < places.len() && #[trigger] places[p] == i by {
            if i < rest.len() {
                assert(rest[i] == ids[i]);
                let p = choose|p: int| 0 <= p < earlier.len() && #[trigger] earlier[p] == i;
                assert(places[p] == i);
            } else {
                if let Some(bits) = cached(scores, epoch, ids.last(), policy) {
                    assert(holds_score(scores, epoch, ids.last(), policy, bits));
                }
                assert(places[earlier.len() as int] == i);
            }
        }
    }
}

proof fn lemma_filled_places(
    ids: Seq<PhysicalIdentity>,
    present: Seq<PhysicalIdentity>,
    scores: Seq<CachedScore>,
    epoch: Option<EpochIdentity>,
    policy: CrossScorePolicy,
    fresh: Seq<u64>,
)
    requires
        ids.len() <= usize::MAX,
    ensures
        ({
            let fills = filled(ids, present, scores, epoch, policy, fresh);
            let places = needed(ids, present, scores, epoch, policy);
            &&& fills.len() == count_missing(ids, present, ids.len())
            &&& forall|f: int|
                0 <= f < fills.len() ==> {
                    let (i, bits) = #[trigger] fills[f];
                    &&& 0 <= i < ids.len()
                    &&& !present.contains(ids[i])
                    &&& is_score_of_place(
                        scores,
                        epoch,
                        ids[i],
                        policy,
                        places,
                        fresh,
                        i,
                        bits,
                    )
                }
            &&& forall|i: int|
                0 <= i < ids.len() && !present.contains(#[trigger] ids[i]) ==> exists|f: int|
                    0 <= f < fills.len() && (#[trigger] fills[f]).0 == i
            &&& forall|f: int, g: int|
                0 <= f < g < fills.len() ==> (#[trigger] fills[f]).0 < (#[trigger] fills[g]).0
        }),
    decreases ids.len(),
{
    if ids.len() > 0 {
        let rest = ids.drop_last();
        let at = ids.len() - 1;
        lemma_filled_places(rest, present, scores, epoch, policy, fresh);
        lemma_cached_scores(scores, epoch, ids.last(), policy);
        lemma_counts_agree(rest, ids, present, rest.len());
        let earlier = filled(rest, present, scores, epoch, policy, fresh);
        let fills = filled(ids, present, scores, epoch, policy, fresh);
        let fewer = needed(rest, present, scores, epoch, policy);
        let places = needed(ids, present, scores, epoch, policy);
        assert(forall|p: int| 0 <= p < fewer.len() ==> #[trigger] places[p] == fewer[p]);
        assert forall|f: int| 0 <= f < fills.len() implies {
            let (i, bits) = #[trigger] fills[f];
            &&& 0 <= i < ids.len()
            &&& !present.contains(ids[i])
            &&& is_score_of_place(scores, epoch, ids[i], policy, places, fresh, i, bits)
        } by {
            let (i, bits) = fills[f];
            if f < earlier.len() {
                assert(fills[f] == earlier[f]);
                assert(rest[i] == ids[i]);
                if !holds_score(scores, epoch, ids[i], policy, bits) {
                    let p = choose|p: int|
                        0 <= p < fewer.len() && #[trigger] fewer[p] == i && fresh[p] == bits;
                    assert(places[p] == i);
                }
            } else {
                if cached(scores, epoch, ids.last(), policy) is None {
                    assert(places[fewer.len() as int] == at);
                }
            }
        }
        assert forall|i: int| 0 <= i < ids.len() && !present.contains(#[trigger] ids[i]) implies exists|
            f: int,
        |
            0 <= f < fills.len() && (#[trigger] fills[f]).0 == i by {
            if i < rest.len() {
                assert(rest[i] == ids[i]);
                let f = choose|f: int| 0 <= f < earlier.len() && (#[trigger] earlier[f]).0 == i;
                assert(fills[f].0 == i);
            } else {
                assert(fills[earlier.len() as int].0 == i);
            }
        }
    }
}

proof fn lemma_counts_agree(
    left: Seq<PhysicalIdentity>,
    right: Seq<PhysicalIdentity>,
    present: Seq<PhysicalIdentity>,
    n: nat,
)
    requires
        n <= left.len(),
        n <= right.len(),
        forall|i: int| 0 <= i < n ==> #[trigger] left[i] == right[i],
    ensures
        count_missing(left, present, n) == count_missing(right, present, n),
    decreases n,
{
    if n > 0 {
        lemma_counts_agree(left, right, present, (n - 1) as nat);
        assert(left[n - 1] == right[n - 1]);
    }
}

proof fn lemma_fresh_scores_are_kept(
    ids: Seq<PhysicalIdentity>,
    present: Seq<PhysicalIdentity>,
    scores: Seq<CachedScore>,
    epoch: Option<EpochIdentity>,
    policy: CrossScorePolicy,
    fresh: Seq<u64>,
)
    requires
        ids.len() <= usize::MAX,
    ensures
        ({
            let entries = fresh_entries(ids, present, scores, epoch, policy, fresh);
            let places = needed(ids, present, scores, epoch, policy);
            &&& entries.len() == places.len()
            &&& forall|p: int|
                0 <= p < places.len() ==> #[trigger] entries[p] == (CachedScore {
                    key: CrossScoreKey { identity: ids[places[p] as int], epoch, policy },
                    bits: fresh[p],
                })
        }),
    decreases ids.len(),
{
    if ids.len() > 0 {
        let rest = ids.drop_last();
        lemma_fresh_scores_are_kept(rest, present, scores, epoch, policy, fresh);
        lemma_needed_places(rest, present, scores, epoch, policy);
        let fewer = needed(rest, present, scores, epoch, policy);
        let places = needed(ids, present, scores, epoch, policy);
        let entries = fresh_entries(ids, present, scores, epoch, policy, fresh);
        let earlier = fresh_entries(rest, present, scores, epoch, policy, fresh);
        assert forall|p: int| 0 <= p < places.len() implies #[trigger] entries[p] == (CachedScore {
            key: CrossScoreKey { identity: ids[places[p] as int], epoch, policy },
            bits: fresh[p],
        }) by {
            if p < fewer.len() {
                assert(entries[p] == earlier[p]);
                assert(places[p] == fewer[p]);
                assert(rest[fewer[p] as int] == ids[fewer[p] as int]);
            }
        }
    }
}

proof fn lemma_window_identities(
    segments: Seq<SegmentId>,
    sources: Seq<StructuredLexicalSource>,
    vector: Seq<SearchCandidate>,
    lexical: Seq<LexicalHit>,
    width: nat,
)
    ensures
        ({
            let vids = vector_ids(window(vector, width));
            let lids = lexical_ids(segments, sources, window(lexical, width));
            let end_v = window_len(vector.len(), width);
            let end_l = window_len(lexical.len(), width);
            &&& window(vector, width) == vector.take(end_v as int)
            &&& window(lexical, width) == lexical.take(end_l as int)
            &&& vids.len() == end_v
            &&& lids.len() == end_l
            &&& forall|i: int|
                0 <= i < end_v ==> #[trigger] vids[i] == identity_of_candidate(vector[i])
            &&& forall|id: PhysicalIdentity| #[trigger]
                vids.contains(id) <==> vector_holds(vector, end_v, id)
            &&& hits_resolve(segments, sources, lexical, end_l) ==> {
                &&& forall|j: int|
                    0 <= j < end_l ==> #[trigger] lids[j] == identity_of_hit(
                        segments,
                        sources,
                        lexical[j],
                    )
                &&& forall|id: PhysicalIdentity| #[trigger]
                    lids.contains(id) <==> lexical_holds(segments, sources, lexical, end_l, id)
            }
        }),
{
    let vids = vector_ids(window(vector, width));
    let lids = lexical_ids(segments, sources, window(lexical, width));
    let end_v = window_len(vector.len(), width);
    let end_l = window_len(lexical.len(), width);
    assert(window(vector, width) == vector.take(end_v as int));
    assert(window(lexical, width) == lexical.take(end_l as int));
    assert forall|id: PhysicalIdentity| #[trigger] vids.contains(id) <==> vector_holds(
        vector,
        end_v,
        id,
    ) by {
        if vids.contains(id) {
            let i = choose|i: int| 0 <= i < vids.len() && vids[i] == id;
            assert(identity_of_candidate(vector[i]) == id);
        }
        if vector_holds(vector, end_v, id) {
            let i = choose|i: int|
                0 <= i < end_v && identity_of_candidate(#[trigger] vector[i]) == id;
            assert(vids[i] == id);
        }
    }
    if hits_resolve(segments, sources, lexical, end_l) {
        assert forall|j: int| 0 <= j < end_l implies #[trigger] lids[j] == identity_of_hit(
            segments,
            sources,
            lexical[j],
        ) by {
            assert(window(lexical, width)[j] == lexical[j]);
        }
        assert forall|id: PhysicalIdentity| #[trigger] lids.contains(id) <==> lexical_holds(
            segments,
            sources,
            lexical,
            end_l,
            id,
        ) by {
            if lids.contains(id) {
                let j = choose|j: int| 0 <= j < lids.len() && lids[j] == id;
                assert(identity_of_hit(segments, sources, lexical[j]) == id);
            }
            if lexical_holds(segments, sources, lexical, end_l, id) {
                let j = choose|j: int|
                    0 <= j < end_l && identity_of_hit(segments, sources, #[trigger] lexical[j])
                        == id;
                assert(lids[j] == id);
            }
        }
    }
}

proof fn lemma_ranked_members<T: crate::rank::Ranked>(s: Seq<T>)
    ensures
        ranked(s).len() == s.len(),
        forall|x: T| #[trigger] ranked(s).contains(x) <==> s.contains(x),
{
    lemma_ranked_is_permutation(s);
    lemma_permutation_keeps_members(ranked(s), s);
}

/// Whether the lexical list of a round holds a document with a score.
pub open spec fn lists_lexical(
    list: Seq<LexicalCandidate>,
    document: Option<DocumentVersion>,
    bits: u64,
) -> bool {
    exists|at: int|
        0 <= at < list.len() && (#[trigger] list[at]).document == document_key_of(document)
            && list[at].bm25.bits == bits
}

/// Whether the vector list of a round holds a document with a distance.
pub open spec fn lists_vector(
    list: Seq<VectorCandidate>,
    document: Option<DocumentVersion>,
    bits: u32,
    exact: bool,
) -> bool {
    exists|at: int|
        0 <= at < list.len() && (#[trigger] list[at]).document == document_key_of(document)
            && list[at].squared_l2.bits == bits && list[at].exact == exact
}

/// The lexical list of a round: every hit of the lexical window stands in it with its
/// own score, every hit of the vector window that the lexical window lacks stands in it
/// with exactly the score that the cache holds of its identity or that was computed for
/// it, and nothing else does. The best scores come first.
pub proof fn lemma_the_lexical_list_holds_both_windows(
    plan: &RoundPlan,
    segments: &Vec<SegmentId>,
    sources: &Vec<StructuredLexicalSource>,
    vector: &Vec<SearchCandidate>,
    lexical: &Vec<LexicalHit>,
    width: usize,
    anchors: HybridAnchors,
    capture_rows: bool,
    distances: &Vec<Score>,
    lexical_scores: &Vec<Double>,
    lexical_counters: SearchCounters,
    cache: &mut CrossScoreCache,
    buffers: &mut HybridRoundBuffers,
    accounting: &mut Accounting,
    result: Result<HybridRound, FusionError>,
)
    requires
        call_ensures(
            build_round,
            (
                plan,
                segments,
                sources,
                vector,
                lexical,
                width,
                anchors,
                capture_rows,
                distances,
                lexical_scores,
                lexical_counters,
                cache,
                buffers,
                accounting,
            ),
            result,
        ),
        is_plan(
            *plan,
            segments@,
            sources@,
            vector@,
            lexical@,
            width as nat,
            *old(cache),
            *old(buffers),
        ),
        hits_resolve(
            segments@,
            sources@,
            lexical@,
            window_len(lexical@.len(), width as nat),
        ),
        result is Ok,
    ensures
        ({
            let list = final(buffers).lexical.items@;
            let scores = old(cache).entries.items@.take(old(cache).sorted as int);
            let epoch = old(cache).epoch;
            let policy = CrossScorePolicy::Bm25Beir;
            let end_v = window_len(vector@.len(), width as nat);
            let end_l = window_len(lexical@.len(), width as nat);
            let fresh = Seq::new(lexical_scores@.len(), |p: int| lexical_scores@[p].bits);
            &&& lexical_scores@.len() == plan.lexical_needed@.len()
            &&& forall|j: int|
                0 <= j < end_l ==> lists_lexical(
                    list,
                    (#[trigger] lexical@[j]).document,
                    lexical@[j].bm25.bits,
                )
            &&& forall|i: int|
                0 <= i < end_v && !lexical_holds(
                    segments@,
                    sources@,
                    lexical@,
                    end_l,
                    identity_of_candidate(#[trigger] vector@[i]),
                ) ==> exists|bits: u64|
                    #[trigger] is_score_of_place(
                        scores,
                        epoch,
                        identity_of_candidate(vector@[i]),
                        policy,
                        plan.lexical_needed@,
                        fresh,
                        i,
                        bits,
                    ) && lists_lexical(list, vector@[i].document, bits)
            &&& forall|at: int|
                0 <= at < list.len() ==> {
                    let shown = #[trigger] list[at];
                    ||| exists|j: int|
                        0 <= j < end_l && document_key_of((#[trigger] lexical@[j]).document)
                            == shown.document && lexical@[j].bm25 == shown.bm25
                    ||| exists|i: int|
                        0 <= i < end_v && document_key_of((#[trigger] vector@[i]).document)
                            == shown.document && !lexical_holds(
                            segments@,
                            sources@,
                            lexical@,
                            end_l,
                            identity_of_candidate(vector@[i]),
                        ) && is_score_of_place(
                            scores,
                            epoch,
                            identity_of_candidate(vector@[i]),
                            policy,
                            plan.lexical_needed@,
                            fresh,
                            i,
                            shown.bm25.bits,
                        )
                }
            &&& list.len() == end_l + result->Ok_0.cross_filled_lexical
            &&& result->Ok_0.lexical_scores_computed == lexical_scores@.len()
            &&& forall|a: int, b: int|
                0 <= a < b < list.len() ==> (#[trigger] list[a]).bm25.order() >= (
                #[trigger] list[b]).bm25.order()
        }),
{
    let list = final(buffers).lexical.items@;
    let scores = old(cache).finished();
    let epoch = old(cache).epoch;
    let policy = CrossScorePolicy::Bm25Beir;
    let end_v = window_len(vector@.len(), width as nat);
    let end_l = window_len(lexical@.len(), width as nat);
    let fresh = Seq::new(lexical_scores@.len(), |p: int| lexical_scores@[p].bits);
    let candidates = window(vector@, width as nat);
    let hits = window(lexical@, width as nat);
    let vids = vector_ids(candidates);
    let lids = lexical_ids(segments@, sources@, hits);
    let round = result->Ok_0;
    assert(vector@.len() == vector.len() && lexical@.len() == lexical.len());
    lemma_window_identities(segments@, sources@, vector@, lexical@, width as nat);
    assert(fresh =~= lexical_bits(lexical_scores@));
    lemma_filled_places(vids, lids, scores, epoch, policy, fresh);
    let places = needed(vids, lids, scores, epoch, policy);
    assert(places == plan.lexical_needed@);
    let fills = filled(vids, lids, scores, epoch, policy, fresh);
    let own = hits.map_values(|hit: LexicalHit| own_lexical(hit));
    let cross = cross_lexical(candidates, fills);
    assert(list == round_lexical(candidates, hits, fills));
    assert(list == ranked(own + cross));
    lemma_ranked_members(own + cross);
    lemma_ranked_is_ranked(own + cross);
    assert forall|j: int| 0 <= j < end_l implies lists_lexical(
        list,
        (#[trigger] lexical@[j]).document,
        lexical@[j].bm25.bits,
    ) by {
        let shown = (own + cross)[j];
        assert(hits[j] == lexical@[j]);
        assert((own + cross).contains(shown));
        assert(list.contains(shown));
        let at = choose|at: int| 0 <= at < list.len() && list[at] == shown;
        assert(list[at].document == document_key_of(lexical@[j].document));
    }
    assert forall|i: int|
        0 <= i < end_v && !lexical_holds(
            segments@,
            sources@,
            lexical@,
            end_l,
            identity_of_candidate(#[trigger] vector@[i]),
        ) implies exists|bits: u64|
        #[trigger] is_score_of_place(
            scores,
            epoch,
            identity_of_candidate(vector@[i]),
            policy,
            plan.lexical_needed@,
            fresh,
            i,
            bits,
        ) && lists_lexical(list, vector@[i].document, bits) by {
        assert(vids[i] == identity_of_candidate(vector@[i]));
        assert(!lids.contains(vids[i]));
        let f = choose|f: int| 0 <= f < fills.len() && (#[trigger] fills[f]).0 == i;
        let bits = fills[f].1;
        let shown = cross[f];
        assert(candidates[i] == vector@[i]);
        assert((own + cross)[own.len() + f] == shown);
        assert((own + cross).contains(shown));
        assert(list.contains(shown));
        let at = choose|at: int| 0 <= at < list.len() && list[at] == shown;
        assert(list[at].document == document_key_of(vector@[i].document));
        assert(is_score_of_place(
            scores,
            epoch,
            identity_of_candidate(vector@[i]),
            policy,
            plan.lexical_needed@,
            fresh,
            i,
            bits,
        ));
    }
    assert forall|at: int| 0 <= at < list.len() implies {
        let shown = #[trigger] list[at];
        ||| exists|j: int|
            0 <= j < end_l && document_key_of((#[trigger] lexical@[j]).document) == shown.document
                && lexical@[j].bm25 == shown.bm25
        ||| exists|i: int|
            0 <= i < end_v && document_key_of((#[trigger] vector@[i]).document) == shown.document
                && !lexical_holds(
                segments@,
                sources@,
                lexical@,
                end_l,
                identity_of_candidate(vector@[i]),
            ) && is_score_of_place(
                scores,
                epoch,
                identity_of_candidate(vector@[i]),
                policy,
                plan.lexical_needed@,
                fresh,
                i,
                shown.bm25.bits,
            )
    } by {
        let shown = list[at];
        assert(list.contains(shown));
        assert((own + cross).contains(shown));
        let place = choose|place: int|
            0 <= place < (own + cross).len() && (own + cross)[place] == shown;
        if place < own.len() {
            assert(hits[place] == lexical@[place]);
            assert(document_key_of(lexical@[place].document) == shown.document);
        } else {
            let f = place - own.len();
            let i = fills[f].0;
            assert(cross[f] == shown);
            assert(candidates[i] == vector@[i]);
            assert(vids[i] == identity_of_candidate(vector@[i]));
            assert(!lids.contains(vids[i]));
            assert(document_key_of(vector@[i].document) == shown.document);
        }
    }
    assert forall|a: int, b: int| 0 <= a < b < list.len() implies (#[trigger] list[a]).bm25.order()
        >= (#[trigger] list[b]).bm25.order() by {
        assert(!crate::rank::before(
            crate::rank::Ranked::rank(list[b]),
            crate::rank::Ranked::rank(list[a]),
        ));
    }
}

/// The vector list of a round: every hit of the vector window stands in it with its own
/// distance, every hit of the lexical window that the vector window lacks stands in it
/// with exactly the distance that the cache holds of its identity or that was computed
/// for it, and nothing else does. The nearest come first.
pub proof fn lemma_the_vector_list_holds_both_windows(
    plan: &RoundPlan,
    segments: &Vec<SegmentId>,
    sources: &Vec<StructuredLexicalSource>,
    vector: &Vec<SearchCandidate>,
    lexical: &Vec<LexicalHit>,
    width: usize,
    anchors: HybridAnchors,
    capture_rows: bool,
    distances: &Vec<Score>,
    lexical_scores: &Vec<Double>,
    lexical_counters: SearchCounters,
    cache: &mut CrossScoreCache,
    buffers: &mut HybridRoundBuffers,
    accounting: &mut Accounting,
    result: Result<HybridRound, FusionError>,
)
    requires
        call_ensures(
            build_round,
            (
                plan,
                segments,
                sources,
                vector,
                lexical,
                width,
                anchors,
                capture_rows,
                distances,
                lexical_scores,
                lexical_counters,
                cache,
                buffers,
                accounting,
            ),
            result,
        ),
        is_plan(
            *plan,
            segments@,
            sources@,
            vector@,
            lexical@,
            width as nat,
            *old(cache),
            *old(buffers),
        ),
        hits_resolve(
            segments@,
            sources@,
            lexical@,
            window_len(lexical@.len(), width as nat),
        ),
        result is Ok,
        distances@.len() == plan.vector_needed@.len(),
    ensures
        ({
            let list = final(buffers).vector.items@;
            let scores = old(cache).entries.items@.take(old(cache).sorted as int);
            let epoch = old(cache).epoch;
            let policy = CrossScorePolicy::SquaredL2F32;
            let end_v = window_len(vector@.len(), width as nat);
            let end_l = window_len(lexical@.len(), width as nat);
            let fresh = Seq::new(distances@.len(), |p: int| distances@[p].bits as u64);
            &&& forall|i: int|
                0 <= i < end_v ==> lists_vector(
                    list,
                    (#[trigger] vector@[i]).document,
                    vector@[i].score.spec_negated().bits,
                    vector@[i].exact_score,
                )
            &&& forall|j: int|
                0 <= j < end_l && !vector_holds(
                    vector@,
                    end_v,
                    identity_of_hit(segments@, sources@, #[trigger] lexical@[j]),
                ) ==> exists|bits: u64|
                    #[trigger] is_score_of_place(
                        scores,
                        epoch,
                        identity_of_hit(segments@, sources@, lexical@[j]),
                        policy,
                        plan.vector_needed@,
                        fresh,
                        j,
                        bits,
                    ) && lists_vector(list, lexical@[j].document, bits as u32, true)
            &&& forall|at: int|
                0 <= at < list.len() ==> {
                    let shown = #[trigger] list[at];
                    ||| exists|i: int|
                        0 <= i < end_v && document_key_of((#[trigger] vector@[i]).document)
                            == shown.document && vector@[i].score.spec_negated()
                            == shown.squared_l2 && vector@[i].exact_score == shown.exact
                    ||| shown.exact && exists|j: int, bits: u64|
                        0 <= j < end_l && document_key_of((#[trigger] lexical@[j]).document)
                            == shown.document && !vector_holds(
                            vector@,
                            end_v,
                            identity_of_hit(segments@, sources@, lexical@[j]),
                        ) && shown.squared_l2.bits == bits as u32 && #[trigger] is_score_of_place(
                            scores,
                            epoch,
                            identity_of_hit(segments@, sources@, lexical@[j]),
                            policy,
                            plan.vector_needed@,
                            fresh,
                            j,
                            bits,
                        )
                }
            &&& list.len() == end_v + result->Ok_0.cross_filled_vector
            &&& result->Ok_0.vector_scores_computed == plan.vector_needed@.len()
            &&& forall|a: int, b: int|
                0 <= a < b < list.len() ==> (#[trigger] list[a]).squared_l2.order() <= (
                #[trigger] list[b]).squared_l2.order()
        }),
{
    let list = final(buffers).vector.items@;
    let scores = old(cache).finished();
    let epoch = old(cache).epoch;
    let policy = CrossScorePolicy::SquaredL2F32;
    let end_v = window_len(vector@.len(), width as nat);
    let end_l = window_len(lexical@.len(), width as nat);
    let fresh = Seq::new(distances@.len(), |p: int| distances@[p].bits as u64);
    let candidates = window(vector@, width as nat);
    let hits = window(lexical@, width as nat);
    let vids = vector_ids(candidates);
    let lids = lexical_ids(segments@, sources@, hits);
    assert(vector@.len() == vector.len() && lexical@.len() == lexical.len());
    lemma_window_identities(segments@, sources@, vector@, lexical@, width as nat);
    assert(fresh =~= distance_bits(distances@));
    lemma_filled_places(lids, vids, scores, epoch, policy, fresh);
    let places = needed(lids, vids, scores, epoch, policy);
    assert(places == plan.vector_needed@);
    let fills = filled(lids, vids, scores, epoch, policy, fresh);
    let own = candidates.map_values(|candidate: SearchCandidate| own_vector(candidate));
    let cross = cross_vector(hits, fills);
    assert(list == round_vector(candidates, hits, fills));
    assert(list == ranked(own + cross));
    lemma_ranked_members(own + cross);
    lemma_ranked_is_ranked(own + cross);
    assert forall|i: int| 0 <= i < end_v implies lists_vector(
        list,
        (#[trigger] vector@[i]).document,
        vector@[i].score.spec_negated().bits,
        vector@[i].exact_score,
    ) by {
        let shown = (own + cross)[i];
        assert(candidates[i] == vector@[i]);
        assert((own + cross).contains(shown));
        assert(list.contains(shown));
        let at = choose|at: int| 0 <= at < list.len() && list[at] == shown;
        assert(list[at].document == document_key_of(vector@[i].document));
    }
    assert forall|j: int|
        0 <= j < end_l && !vector_holds(
            vector@,
            end_v,
            identity_of_hit(segments@, sources@, #[trigger] lexical@[j]),
        ) implies exists|bits: u64|
        #[trigger] is_score_of_place(
            scores,
            epoch,
            identity_of_hit(segments@, sources@, lexical@[j]),
            policy,
            plan.vector_needed@,
            fresh,
            j,
            bits,
        ) && lists_vector(list, lexical@[j].document, bits as u32, true) by {
        assert(lids[j] == identity_of_hit(segments@, sources@, lexical@[j]));
        assert(!vids.contains(lids[j]));
        let f = choose|f: int| 0 <= f < fills.len() && (#[trigger] fills[f]).0 == j;
        let bits = fills[f].1;
        let shown = cross[f];
        assert(hits[j] == lexical@[j]);
        assert((own + cross)[own.len() + f] == shown);
        assert((own + cross).contains(shown));
        assert(list.contains(shown));
        let at = choose|at: int| 0 <= at < list.len() && list[at] == shown;
        assert(list[at].document == document_key_of(lexical@[j].document));
        assert(is_score_of_place(
            scores,
            epoch,
            identity_of_hit(segments@, sources@, lexical@[j]),
            policy,
            plan.vector_needed@,
            fresh,
            j,
            bits,
        ));
    }
    assert forall|at: int| 0 <= at < list.len() implies {
        let shown = #[trigger] list[at];
        ||| exists|i: int|
            0 <= i < end_v && document_key_of((#[trigger] vector@[i]).document) == shown.document
                && vector@[i].score.spec_negated() == shown.squared_l2 && vector@[i].exact_score
                == shown.exact
        ||| shown.exact && exists|j: int, bits: u64|
            0 <= j < end_l && document_key_of((#[trigger] lexical@[j]).document) == shown.document
                && !vector_holds(
                vector@,
                end_v,
                identity_of_hit(segments@, sources@, lexical@[j]),
            ) && shown.squared_l2.bits == bits as u32 && #[trigger] is_score_of_place(
                scores,
                epoch,
                identity_of_hit(segments@, sources@, lexical@[j]),
                policy,
                plan.vector_needed@,
                fresh,
                j,
                bits,
            )
    } by {
        let shown = list[at];
        assert(list.contains(shown));
        assert((own + cross).contains(shown));
        let place = choose|place: int|
            0 <= place < (own + cross).len() && (own + cross)[place] == shown;
        if place < own.len() {
            assert(candidates[place] == vector@[place]);
            assert(document_key_of(vector@[place].document) == shown.document);
        } else {
            let f = place - own.len();
            let (j, bits) = fills[f];
            assert(cross[f] == shown);
            assert(hits[j] == lexical@[j]);
            assert(lids[j] == identity_of_hit(segments@, sources@, lexical@[j]));
            assert(!vids.contains(lids[j]));
            assert(document_key_of(lexical@[j].document) == shown.document);
            assert(is_score_of_place(
                scores,
                epoch,
                identity_of_hit(segments@, sources@, lexical@[j]),
                policy,
                plan.vector_needed@,
                fresh,
                j,
                bits,
            ));
        }
    }
    assert forall|a: int, b: int| 0 <= a < b < list.len() implies (
    #[trigger] list[a]).squared_l2.order() <= (#[trigger] list[b]).squared_l2.order() by {
        assert(!crate::rank::before(
            crate::rank::Ranked::rank(list[b]),
            crate::rank::Ranked::rank(list[a]),
        ));
    }
}

/// Whether the addresses of a round hold an identity.
pub open spec fn keeps_address(entries: Seq<AddressEntry>, identity: PhysicalIdentity) -> bool {
    identity.document matches Some(version) ==> exists|at: int|
        0 <= at < entries.len() && (#[trigger] entries[at]).key == version.doc_id
            && entries[at].row_id == identity.row && entries[at].document == identity.document
}

proof fn lemma_addresses_are_those_of_the_identities(ids: Seq<PhysicalIdentity>)
    ensures
        forall|i: int| 0 <= i < ids.len() ==> keeps_address(address_list(ids), #[trigger] ids[i]),
        forall|at: int|
            0 <= at < address_list(ids).len() ==> {
                let entry = #[trigger] address_list(ids)[at];
                &&& entry.document matches Some(version) && version.doc_id == entry.key
                &&& ids.contains(
                    PhysicalIdentity { row: entry.row_id, document: entry.document },
                )
            },
    decreases ids.len(),
{
    if ids.len() > 0 {
        let rest = ids.drop_last();
        lemma_addresses_are_those_of_the_identities(rest);
        let earlier = address_list(rest);
        let entries = address_list(ids);
        assert forall|i: int| 0 <= i < ids.len() implies keeps_address(
            entries,
            #[trigger] ids[i],
        ) by {
            if let Some(version) = ids[i].document {
                if i < rest.len() {
                    assert(rest[i] == ids[i]);
                    let at = choose|at: int|
                        0 <= at < earlier.len() && (#[trigger] earlier[at]).key == version.doc_id
                            && earlier[at].row_id == ids[i].row && earlier[at].document
                            == ids[i].document;
                    assert(entries[at] == earlier[at]);
                } else {
                    assert(entries[earlier.len() as int].row_id == ids[i].row);
                }
            }
        }
        assert forall|at: int| 0 <= at < entries.len() implies {
            let entry = #[trigger] entries[at];
            &&& entry.document matches Some(version) && version.doc_id == entry.key
            &&& ids.contains(PhysicalIdentity { row: entry.row_id, document: entry.document })
        } by {
            let entry = entries[at];
            let id = PhysicalIdentity { row: entry.row_id, document: entry.document };
            if at < earlier.len() {
                assert(entry == earlier[at]);
                assert(rest.contains(id));
                let i = choose|i: int| 0 <= i < rest.len() && rest[i] == id;
                assert(ids[i] == id);
            } else {
                assert(ids[ids.len() - 1] == id);
            }
        }
    }
}

/// What else a round says: the ranges of both legs, with the score of the first row
/// behind each window, where there is one; the address of every document that either
/// window holds, where addresses are captured, and no other; and, where a wider round
/// may follow, every score that was computed, kept in the cache under its identity.
pub proof fn lemma_a_round_reports_its_windows(
    plan: &RoundPlan,
    segments: &Vec<SegmentId>,
    sources: &Vec<StructuredLexicalSource>,
    vector: &Vec<SearchCandidate>,
    lexical: &Vec<LexicalHit>,
    width: usize,
    anchors: HybridAnchors,
    capture_rows: bool,
    distances: &Vec<Score>,
    lexical_scores: &Vec<Double>,
    lexical_counters: SearchCounters,
    cache: &mut CrossScoreCache,
    buffers: &mut HybridRoundBuffers,
    accounting: &mut Accounting,
    result: Result<HybridRound, FusionError>,
    p: int,
    q: int,
)
    requires
        call_ensures(
            build_round,
            (
                plan,
                segments,
                sources,
                vector,
                lexical,
                width,
                anchors,
                capture_rows,
                distances,
                lexical_scores,
                lexical_counters,
                cache,
                buffers,
                accounting,
            ),
            result,
        ),
        is_plan(
            *plan,
            segments@,
            sources@,
            vector@,
            lexical@,
            width as nat,
            *old(cache),
            *old(buffers),
        ),
        hits_resolve(
            segments@,
            sources@,
            lexical@,
            window_len(lexical@.len(), width as nat),
        ),
        result is Ok,
        distances@.len() == plan.vector_needed@.len(),
    ensures
        ({
            let round = result->Ok_0;
            let end_v = window_len(vector@.len(), width as nat);
            let end_l = window_len(lexical@.len(), width as nat);
            let kept = final(cache).entries.items@.take(final(cache).sorted as int);
            let epoch = old(cache).epoch;
            &&& round.lexical_counters == lexical_counters
            &&& round.lexical_bounds.max_bm25 == anchors.lexical_maximum
            &&& round.lexical_bounds.next_unseen_bm25 == if width < lexical@.len() {
                Some(lexical@[width as int].bm25)
            } else {
                None
            }
            &&& end_v > 0 || round.cross_filled_vector > 0 ==> (round.vector_bounds matches Some(
                bounds,
            ) && Some(bounds.max_squared_l2) == anchors.vector_ceiling
                && bounds.next_unseen_squared_l2 == if width < vector@.len() {
                Some(vector@[width as int].score.spec_negated())
            } else {
                None
            })
            &&& end_v == 0 && round.cross_filled_vector == 0 ==> round.vector_bounds is None
            &&& round.addresses is Some <==> capture_rows
            &&& round.addresses matches Some(addresses) ==> {
                &&& forall|i: int|
                    0 <= i < end_v ==> keeps_address(
                        addresses.items@,
                        identity_of_candidate(#[trigger] vector@[i]),
                    )
                &&& forall|j: int|
                    0 <= j < end_l ==> keeps_address(
                        addresses.items@,
                        identity_of_hit(segments@, sources@, #[trigger] lexical@[j]),
                    )
                &&& forall|at: int|
                    0 <= at < addresses.items@.len() ==> {
                        let entry = #[trigger] addresses.items@[at];
                        let id = PhysicalIdentity { row: entry.row_id, document: entry.document };
                        &&& entry.document matches Some(version) && version.doc_id == entry.key
                        &&& vector_holds(vector@, end_v, id) || lexical_holds(
                            segments@,
                            sources@,
                            lexical@,
                            end_l,
                            id,
                        )
                    }
            }
            &&& width < vector@.len() || width < lexical@.len() ==> {
                &&& 0 <= p < plan.lexical_needed@.len() ==> holds_score(
                    kept,
                    epoch,
                    identity_of_candidate(vector@[plan.lexical_needed@[p] as int]),
                    CrossScorePolicy::Bm25Beir,
                    lexical_scores@[p].bits,
                )
                &&& 0 <= q < plan.vector_needed@.len() ==> holds_score(
                    kept,
                    epoch,
                    identity_of_hit(segments@, sources@, lexical@[plan.vector_needed@[q] as int]),
                    CrossScorePolicy::SquaredL2F32,
                    distances@[q].bits as u64,
                )
                &&& forall|c: int|
                    0 <= c < old(cache).entries.items@.len() ==> kept.contains(
                        #[trigger] old(cache).entries.items@[c],
                    )
            }
        }),
{
    let round = result->Ok_0;
    let scores = old(cache).finished();
    let epoch = old(cache).epoch;
    let end_v = window_len(vector@.len(), width as nat);
    let end_l = window_len(lexical@.len(), width as nat);
    let vids = vector_ids(window(vector@, width as nat));
    let lids = lexical_ids(segments@, sources@, window(lexical@, width as nat));
    assert(vector@.len() == vector.len() && lexical@.len() == lexical.len());
    lemma_window_identities(segments@, sources@, vector@, lexical@, width as nat);
    if let Some(addresses) = round.addresses {
        let vector_keys = key_list(vids);
        let lexical_keys = key_list(lids);
        lemma_ranked_members(vids);
        lemma_ranked_members(lids);
        lemma_ranked_is_ranked(vids);
        lemma_ranked_is_ranked(lids);
        lemma_without_repeats_members(ranked(vids));
        lemma_without_repeats_members(ranked(lids));
        lemma_addresses_are_those_of_the_identities(vector_keys);
        lemma_addresses_are_those_of_the_identities(lexical_keys);
        let front = address_list(vector_keys);
        let back = address_list(lexical_keys);
        let all = front + back;
        assert(addresses.items@ == ranked(all));
        lemma_ranked_members(all);
        assert forall|id: PhysicalIdentity|
            vector_keys.contains(id) || lexical_keys.contains(id) implies #[trigger] keeps_address(
            addresses.items@,
            id,
        ) by {
            if let Some(version) = id.document {
                let place = if vector_keys.contains(id) {
                    let i = choose|i: int| 0 <= i < vector_keys.len() && vector_keys[i] == id;
                    assert(keeps_address(front, vector_keys[i]));
                    choose|at: int|
                        0 <= at < front.len() && (#[trigger] front[at]).key == version.doc_id
                            && front[at].row_id == id.row && front[at].document == id.document
                } else {
                    let i = choose|i: int| 0 <= i < lexical_keys.len() && lexical_keys[i] == id;
                    assert(keeps_address(back, lexical_keys[i]));
                    front.len() + choose|at: int|
                        0 <= at < back.len() && (#[trigger] back[at]).key == version.doc_id
                            && back[at].row_id == id.row && back[at].document == id.document
                };
                let entry = all[place];
                assert(entry.key == version.doc_id && entry.row_id == id.row && entry.document
                    == id.document);
                assert(all.contains(entry));
                assert(addresses.items@.contains(entry));
                let at = choose|at: int|
                    0 <= at < addresses.items@.len() && addresses.items@[at] == entry;
                assert(addresses.items@[at].key == version.doc_id);
            }
        }
        assert forall|i: int| 0 <= i < end_v implies keeps_address(
            addresses.items@,
            identity_of_candidate(#[trigger] vector@[i]),
        ) by {
            assert(vids[i] == identity_of_candidate(vector@[i]));
            assert(vids.contains(vids[i]));
            assert(ranked(vids).contains(vids[i]));
            assert(vector_keys.contains(vids[i]));
        }
        assert forall|j: int| 0 <= j < end_l implies keeps_address(
            addresses.items@,
            identity_of_hit(segments@, sources@, #[trigger] lexical@[j]),
        ) by {
            assert(lids[j] == identity_of_hit(segments@, sources@, lexical@[j]));
            assert(lids.contains(lids[j]));
            assert(ranked(lids).contains(lids[j]));
            assert(lexical_keys.contains(lids[j]));
        }
        assert forall|at: int| 0 <= at < addresses.items@.len() implies {
            let entry = #[trigger] addresses.items@[at];
            let id = PhysicalIdentity { row: entry.row_id, document: entry.document };
            &&& entry.document matches Some(version) && version.doc_id == entry.key
            &&& vector_holds(vector@, end_v, id) || lexical_holds(
                segments@,
                sources@,
                lexical@,
                end_l,
                id,
            )
        } by {
            let entry = addresses.items@[at];
            let id = PhysicalIdentity { row: entry.row_id, document: entry.document };
            assert(addresses.items@.contains(entry));
            assert(all.contains(entry));
            let place = choose|place: int| 0 <= place < all.len() && all[place] == entry;
            if place < front.len() {
                assert(front[place] == entry);
                assert(vector_keys.contains(id));
                assert(ranked(vids).contains(id));
                assert(vids.contains(id));
            } else {
                assert(back[place - front.len()] == entry);
                assert(lexical_keys.contains(id));
                assert(ranked(lids).contains(id));
                assert(lids.contains(id));
            }
        }
    }
    if width < vector@.len() || width < lexical@.len() {
        let kept = final(cache).finished();
        let more = fresh_entries(
            lids,
            vids,
            scores,
            epoch,
            CrossScorePolicy::SquaredL2F32,
            distance_bits(distances@),
        );
        let most = fresh_entries(
            vids,
            lids,
            scores,
            epoch,
            CrossScorePolicy::Bm25Beir,
            lexical_bits(lexical_scores@),
        );
        let before = old(cache).entries.items@;
        let after = before + more + most;
        assert(kept == ranked(after));
        lemma_ranked_members(after);
        lemma_fresh_scores_are_kept(
            lids,
            vids,
            scores,
            epoch,
            CrossScorePolicy::SquaredL2F32,
            distance_bits(distances@),
        );
        lemma_fresh_scores_are_kept(
            vids,
            lids,
            scores,
            epoch,
            CrossScorePolicy::Bm25Beir,
            lexical_bits(lexical_scores@),
        );
        lemma_needed_places(lids, vids, scores, epoch, CrossScorePolicy::SquaredL2F32);
        lemma_needed_places(vids, lids, scores, epoch, CrossScorePolicy::Bm25Beir);
        if 0 <= p < plan.lexical_needed@.len() {
            let one = most[p];
            assert(after[before.len() + more.len() + p] == one);
            assert(after.contains(one));
            assert(kept.contains(one));
            let c = choose|c: int| 0 <= c < kept.len() && kept[c] == one;
            assert(vids[plan.lexical_needed@[p] as int] == identity_of_candidate(
                vector@[plan.lexical_needed@[p] as int],
            ));
            assert(kept[c].bits == lexical_scores@[p].bits);
        }
        if 0 <= q < plan.vector_needed@.len() {
            let other = more[q];
            assert(after[before.len() + q] == other);
            assert(after.contains(other));
            assert(kept.contains(other));
            let d = choose|d: int| 0 <= d < kept.len() && kept[d] == other;
            assert(lids[plan.vector_needed@[q] as int] == identity_of_hit(
                segments@,
                sources@,
                lexical@[plan.vector_needed@[q] as int],
            ));
            assert(kept[d].bits == distances@[q].bits as u64);
        }
        assert forall|c: int| 0 <= c < before.len() implies kept.contains(
            #[trigger] before[c],
        ) by {
            assert(after[c] == before[c]);
            assert(after.contains(before[c]));
        }
    }
}

/// A planned round asks for exactly the scores that it lacks: a distance for every hit
/// of the lexical window that the vector window lacks, and a lexical score for every
/// hit of the vector window that the lexical window lacks, unless the cache holds it;
/// each once and in order. It keeps the cache and starts with empty lists.
pub proof fn lemma_a_plan_asks_for_what_is_missing(
    segments: &Vec<SegmentId>,
    sources: &Vec<StructuredLexicalSource>,
    vector: &Vec<SearchCandidate>,
    lexical: &Vec<LexicalHit>,
    width: usize,
    cache: &mut CrossScoreCache,
    buffers: &mut HybridRoundBuffers,
    accounting: &mut Accounting,
    observer: &mut HybridScoreObserver,
    result: Result<RoundPlan, FusionError>,
)
    requires
        call_ensures(
            plan_round,
            (
                segments,
                sources,
                vector,
                lexical,
                width,
                cache,
                buffers,
                accounting,
                observer,
            ),
            result,
        ),
        result is Ok,
    ensures
        ({
            let plan = result->Ok_0;
            let end_v = window_len(vector@.len(), width as nat);
            let end_l = window_len(lexical@.len(), width as nat);
            let scores = final(cache).entries.items@.take(final(cache).sorted as int);
            let epoch = final(cache).epoch;
            &&& hits_resolve(segments@, sources@, lexical@, end_l)
            &&& epoch == old(cache).epoch
            &&& !old(observer).fresh_rounds ==> final(cache).entries.items@
                == old(cache).entries.items@ && final(cache).sorted == old(cache).sorted
            &&& old(observer).fresh_rounds ==> final(cache).entries.items@.len() == 0
            &&& final(buffers).vector.items@.len() == 0
            &&& final(buffers).lexical.items@.len() == 0
            &&& forall|p: int|
                0 <= p < plan.vector_needed@.len() ==> {
                    let j = (#[trigger] plan.vector_needed@[p]) as int;
                    let id = identity_of_hit(segments@, sources@, lexical@[j]);
                    j < end_l && !vector_holds(vector@, end_v, id) && lacks_score(
                        scores,
                        epoch,
                        id,
                        CrossScorePolicy::SquaredL2F32,
                    )
                }
            &&& forall|j: int|
                0 <= j < end_l && !vector_holds(
                    vector@,
                    end_v,
                    identity_of_hit(segments@, sources@, #[trigger] lexical@[j]),
                ) && lacks_score(
                    scores,
                    epoch,
                    identity_of_hit(segments@, sources@, lexical@[j]),
                    CrossScorePolicy::SquaredL2F32,
                ) ==> plan.vector_needed@.contains(j as usize)
            &&& forall|p: int|
                0 <= p < plan.lexical_needed@.len() ==> {
                    let i = (#[trigger] plan.lexical_needed@[p]) as int;
                    let id = identity_of_candidate(vector@[i]);
                    i < end_v && !lexical_holds(segments@, sources@, lexical@, end_l, id)
                        && lacks_score(scores, epoch, id, CrossScorePolicy::Bm25Beir)
                }
            &&& forall|i: int|
                0 <= i < end_v && !lexical_holds(
                    segments@,
                    sources@,
                    lexical@,
                    end_l,
                    identity_of_candidate(#[trigger] vector@[i]),
                ) && lacks_score(
                    scores,
                    epoch,
                    identity_of_candidate(vector@[i]),
                    CrossScorePolicy::Bm25Beir,
                ) ==> plan.lexical_needed@.contains(i as usize)
            &&& forall|p: int, q: int|
                0 <= p < q < plan.vector_needed@.len() ==> (#[trigger] plan.vector_needed@[p]) < (
                #[trigger] plan.vector_needed@[q])
            &&& forall|p: int, q: int|
                0 <= p < q < plan.lexical_needed@.len() ==> (#[trigger] plan.lexical_needed@[p]) < (
                #[trigger] plan.lexical_needed@[q])
        }),
{
    let plan = result->Ok_0;
    let end_v = window_len(vector@.len(), width as nat);
    let end_l = window_len(lexical@.len(), width as nat);
    let scores = final(cache).finished();
    let epoch = final(cache).epoch;
    let vids = vector_ids(window(vector@, width as nat));
    let lids = lexical_ids(segments@, sources@, window(lexical@, width as nat));
    assert(vector@.len() == vector.len() && lexical@.len() == lexical.len());
    lemma_window_identities(segments@, sources@, vector@, lexical@, width as nat);
    assert(is_plan(
        plan,
        segments@,
        sources@,
        vector@,
        lexical@,
        width as nat,
        *final(cache),
        *final(buffers),
    ));
    assert(crate::round::all_resolve(segments@, sources@, window(lexical@, width as nat)));
    assert forall|j: int| 0 <= j < end_l implies (#[trigger] lexical@[j]).doc.segment
        < sources@.len() && (
    sources@[lexical@[j].doc.segment as int] matches StructuredLexicalSource::Sealed(slot) ==> slot
        < segments@.len()) by {
        assert(window(lexical@, width as nat)[j] == lexical@[j]);
    }
    lemma_needed_places(lids, vids, scores, epoch, CrossScorePolicy::SquaredL2F32);
    lemma_needed_places(vids, lids, scores, epoch, CrossScorePolicy::Bm25Beir);
    assert forall|p: int| 0 <= p < plan.vector_needed@.len() implies {
        let j = (#[trigger] plan.vector_needed@[p]) as int;
        let id = identity_of_hit(segments@, sources@, lexical@[j]);
        j < end_l && !vector_holds(vector@, end_v, id) && lacks_score(
            scores,
            epoch,
            id,
            CrossScorePolicy::SquaredL2F32,
        )
    } by {
        let j = plan.vector_needed@[p] as int;
        assert(lids[j] == identity_of_hit(segments@, sources@, lexical@[j]));
        assert(!vids.contains(lids[j]));
    }
    assert forall|p: int| 0 <= p < plan.lexical_needed@.len() implies {
        let i = (#[trigger] plan.lexical_needed@[p]) as int;
        let id = identity_of_candidate(vector@[i]);
        i < end_v && !lexical_holds(segments@, sources@, lexical@, end_l, id) && lacks_score(
            scores,
            epoch,
            id,
            CrossScorePolicy::Bm25Beir,
        )
    } by {
        let i = plan.lexical_needed@[p] as int;
        assert(vids[i] == identity_of_candidate(vector@[i]));
        assert(!lids.contains(vids[i]));
    }
    assert forall|j: int|
        0 <= j < end_l && !vector_holds(
            vector@,
            end_v,
            identity_of_hit(segments@, sources@, #[trigger] lexical@[j]),
        ) && lacks_score(
            scores,
            epoch,
            identity_of_hit(segments@, sources@, lexical@[j]),
            CrossScorePolicy::SquaredL2F32,
        ) implies plan.vector_needed@.contains(j as usize) by {
        assert(lids[j] == identity_of_hit(segments@, sources@, lexical@[j]));
        assert(!vids.contains(lids[j]));
        let p = choose|p: int|
            0 <= p < plan.vector_needed@.len() && #[trigger] plan.vector_needed@[p] == j;
        assert(plan.vector_needed@[p] == j as usize);
    }
    assert forall|i: int|
        0 <= i < end_v && !lexical_holds(
            segments@,
            sources@,
            lexical@,
            end_l,
            identity_of_candidate(#[trigger] vector@[i]),
        ) && lacks_score(
            scores,
            epoch,
            identity_of_candidate(vector@[i]),
            CrossScorePolicy::Bm25Beir,
        ) implies plan.lexical_needed@.contains(i as usize) by {
        assert(vids[i] == identity_of_candidate(vector@[i]));
        assert(!lids.contains(vids[i]));
        let p = choose|p: int|
            0 <= p < plan.lexical_needed@.len() && #[trigger] plan.lexical_needed@[p] == i;
        assert(plan.lexical_needed@[p] == i as usize);
    }
}

} // verus!
