//! What a vector search answers, in terms of the rows that it read.

use crate::candidates::distinct_union;
use crate::candidates::ScanCandidate;
use crate::candidates::ScanOutcome;
use crate::candidates::SearchCandidate;
use crate::corpus::live_rows;
use crate::corpus::ActiveFacts;
use crate::corpus::SegmentFacts;
use crate::corpus::UnreadDocument;
use crate::error::QueryError;
use crate::exhaustive::live_indices;
use crate::exhaustive::live_row_indices;
use crate::exhaustive::rank_rescored;
use crate::exhaustive::rescored_candidates;
use crate::exhaustive::RescoredHit;
use crate::ids::DocumentVersion;
use crate::ids::RowSource;
use crate::options::GraphBoundMode;
use crate::poll::StopPoll;
use crate::poll::StopSource;
use crate::rank::best;
use crate::rank::best_with_ties;
use crate::rank::lemma_best_is_a_selection;
use crate::rank::lemma_best_with_ties_is_a_selection;
use crate::rank::lemma_ranked_is_permutation;
use crate::rank::lemma_ranked_is_ranked;
use crate::rank::ranked;
use crate::score::Double;
use crate::search::ceiling;
use crate::search::competitive_distance;
use crate::search::fold_exact_vector_ceiling;
use crate::search::graph_candidates;
use crate::search::live_hits;
use crate::search::merge_store_outcome;
use crate::search::retain_global_top_k;
use crate::search::scan_candidates;
use crate::search::GraphHit;
use crate::search::SearchTotals;
use crate::search::SegmentGraphResult;
use crate::structured::numeric;
use crate::vector_search::gathered;
use crate::vector_search::search_order;
use crate::vector_search::turns;
use crate::vector_search::SearchClosing;
use crate::vector_search::SearchOutcome;
use crate::vector_search::SegmentTurn;
use crate::vector_search::VectorSearch;
use vstd::prelude::*;

verus! {

/// What a scan finds is handed on row by row: each candidate stands for the row of its
/// own hit, in the source that was scanned, with the score of that hit and with the
/// document that is pinned for that very row, if one is.
pub proof fn lemma_scanned_rows_keep_their_documents(
    hits: Seq<ScanCandidate>,
    source: RowSource,
    documents: Seq<Option<DocumentVersion>>,
    exact_score: bool,
)
    requires
        forall|i: int| 0 <= i < hits.len() ==> (#[trigger] hits[i]).row_id <= u32::MAX,
    ensures
        ({
            let given = scan_candidates(hits, source, documents, exact_score);
            &&& given.len() == hits.len()
            &&& forall|i: int|
                0 <= i < given.len() ==> {
                    let row = (#[trigger] given[i]).row_id.local_row;
                    &&& row == hits[i].row_id
                    &&& given[i].row_id.source == source
                    &&& given[i].score == hits[i].score
                    &&& given[i].exact_score == exact_score
                    &&& row < documents.len() ==> given[i].document == documents[row as int]
                    &&& row >= documents.len() ==> given[i].document is None
                }
        }),
{
}

proof fn lemma_filter_keeps_what_passes<T>(s: Seq<T>, passes: spec_fn(T) -> bool)
    ensures
        s.filter(passes).len() <= s.len(),
        forall|i: int|
            0 <= i < s.filter(passes).len() ==> passes(#[trigger] s.filter(passes)[i])
                && s.contains(s.filter(passes)[i]),
        forall|j: int|
            0 <= j < s.len() && passes(#[trigger] s[j]) ==> s.filter(passes).contains(s[j]),
        (forall|j: int| 0 <= j < s.len() ==> passes(#[trigger] s[j])) ==> s.filter(passes) == s,
    decreases s.len(),
{
    reveal(Seq::filter);
    if s.len() > 0 {
        let rest = s.drop_last();
        lemma_filter_keeps_what_passes(rest, passes);
        let kept = rest.filter(passes);
        assert forall|x: T| rest.contains(x) implies s.contains(x) by {
            let at = choose|at: int| 0 <= at < rest.len() && rest[at] == x;
            assert(s[at] == x);
        }
        assert(s.contains(s.last())) by {
            assert(s[s.len() - 1] == s.last());
        }
        assert forall|i: int| 0 <= i < s.filter(passes).len() implies passes(
            #[trigger] s.filter(passes)[i],
        ) && s.contains(s.filter(passes)[i]) by {
            if i < kept.len() {
                assert(s.filter(passes)[i] == kept[i]);
            }
        }
        assert forall|j: int| 0 <= j < s.len() && passes(#[trigger] s[j]) implies s.filter(
            passes,
        ).contains(s[j]) by {
            if j < rest.len() {
                assert(rest[j] == s[j]);
                let at = choose|at: int| 0 <= at < kept.len() && kept[at] == s[j];
                assert(s.filter(passes)[at] == s[j]);
            } else {
                assert(s.filter(passes)[kept.len() as int] == s[j]);
            }
        }
        if forall|j: int| 0 <= j < s.len() ==> passes(#[trigger] s[j]) {
            assert forall|j: int| 0 <= j < rest.len() implies passes(#[trigger] rest[j]) by {
                assert(rest[j] == s[j]);
            }
            assert(passes(s[s.len() - 1]));
            assert(s.filter(passes) == rest.push(s.last()));
            assert(rest.push(s.last()) == s);
        }
    } else {
        assert(s.filter(passes) == s);
    }
}

/// Whether a candidate stands for a hit of a traversal: the hit's row, its score, and
/// the document that is pinned for that row.
pub open spec fn stands_for_hit(
    candidate: SearchCandidate,
    hit: GraphHit,
    source: RowSource,
    documents: Seq<Option<DocumentVersion>>,
) -> bool {
    &&& candidate.row_id.source == source
    &&& candidate.row_id.local_row == hit.row_id
    &&& candidate.score == hit.score
    &&& candidate.exact_score
    &&& candidate.document == if hit.row_id < documents.len() {
        documents[hit.row_id as int]
    } else {
        None
    }
}

/// What a traversal finds is handed on without its deleted rows: every candidate stands
/// for a hit whose row is alive, and every hit whose row is alive has its candidate.
pub proof fn lemma_traversed_rows_are_the_live_hits(
    hits: Seq<GraphHit>,
    alive: Seq<bool>,
    source: RowSource,
    documents: Seq<Option<DocumentVersion>>,
)
    ensures
        ({
            let given = graph_candidates(hits, alive, source, documents);
            &&& given.len() <= hits.len()
            &&& forall|i: int|
                0 <= i < given.len() ==> {
                    let row = (#[trigger] given[i]).row_id.local_row as int;
                    &&& row < alive.len() && alive[row]
                    &&& exists|j: int|
                        0 <= j < hits.len() && stands_for_hit(
                            given[i],
                            #[trigger] hits[j],
                            source,
                            documents,
                        )
                }
            &&& forall|j: int|
                0 <= j < hits.len() && (#[trigger] hits[j]).row_id < alive.len()
                    && alive[hits[j].row_id as int] ==> exists|i: int|
                    0 <= i < given.len() && stands_for_hit(
                        #[trigger] given[i],
                        hits[j],
                        source,
                        documents,
                    )
            &&& (forall|j: int|
                0 <= j < hits.len() ==> (#[trigger] hits[j]).row_id < alive.len()
                    && alive[hits[j].row_id as int]) ==> given.len() == hits.len() && forall|
                i: int,
            |
                0 <= i < given.len() ==> stands_for_hit(
                    #[trigger] given[i],
                    hits[i],
                    source,
                    documents,
                )
        }),
        graph_candidates(hits, alive, source, documents).len() == live_hits(hits, alive).len(),
{
    let passes = |hit: GraphHit| crate::corpus::alive_at(alive, hit.row_id as nat);
    let live = live_hits(hits, alive);
    let given = graph_candidates(hits, alive, source, documents);
    lemma_filter_keeps_what_passes(hits, passes);
    assert(live == hits.filter(passes));
    assert forall|i: int| 0 <= i < given.len() implies {
        let row = (#[trigger] given[i]).row_id.local_row as int;
        &&& row < alive.len() && alive[row]
        &&& exists|j: int|
            0 <= j < hits.len() && stands_for_hit(given[i], #[trigger] hits[j], source, documents)
    } by {
        assert(passes(live[i]) && hits.contains(live[i]));
        let j = choose|j: int| 0 <= j < hits.len() && hits[j] == live[i];
        assert(stands_for_hit(given[i], hits[j], source, documents));
    }
    assert forall|j: int|
        0 <= j < hits.len() && (#[trigger] hits[j]).row_id < alive.len()
            && alive[hits[j].row_id as int] implies exists|i: int|
        0 <= i < given.len() && stands_for_hit(#[trigger] given[i], hits[j], source, documents) by {
        assert(passes(hits[j]));
        let i = choose|i: int| 0 <= i < live.len() && live[i] == hits[j];
        assert(stands_for_hit(given[i], hits[j], source, documents));
    }
    if forall|j: int|
        0 <= j < hits.len() ==> (#[trigger] hits[j]).row_id < alive.len()
            && alive[hits[j].row_id as int] {
        assert forall|j: int| 0 <= j < hits.len() implies passes(#[trigger] hits[j]) by {}
        assert(live == hits);
    }
}

/// A segment that was ruled out gives no row; one that was traversed gives its live
/// hits.
pub proof fn lemma_a_pruned_segment_gives_nothing(
    graph: SegmentGraphResult,
    alive: Seq<bool>,
    source: RowSource,
    documents: Seq<Option<DocumentVersion>>,
)
    ensures
        match graph {
            SegmentGraphResult::Pruned { .. } => graph.gives(alive, source, documents).len() == 0,
            SegmentGraphResult::Traversed { hits, .. } => {
                let given = graph.gives(alive, source, documents);
                &&& forall|i: int|
                    0 <= i < given.len() ==> {
                        let row = (#[trigger] given[i]).row_id.local_row as int;
                        &&& row < alive.len() && alive[row]
                        &&& exists|j: int|
                            0 <= j < hits@.len() && stands_for_hit(
                                given[i],
                                #[trigger] hits@[j],
                                source,
                                documents,
                            )
                    }
                &&& forall|j: int|
                    0 <= j < hits@.len() && (#[trigger] hits@[j]).row_id < alive.len()
                        && alive[hits@[j].row_id as int] ==> exists|i: int|
                        0 <= i < given.len() && stands_for_hit(
                            #[trigger] given[i],
                            hits@[j],
                            source,
                            documents,
                        )
            },
        },
{
    if let SegmentGraphResult::Traversed { hits, .. } = graph {
        lemma_traversed_rows_are_the_live_hits(hits@, alive, source, documents);
    }
}

/// Whether one candidate is nearer than another: by its score, then by where its row
/// stands, the active segment before the sealed ones and those by identity.
pub open spec fn nearer(left: SearchCandidate, right: SearchCandidate) -> bool {
    ||| left.score.order() > right.score.order()
    ||| left.score == right.score && match (left.row_id.source, right.row_id.source) {
        (RowSource::Active, RowSource::Active) => left.row_id.local_row < right.row_id.local_row,
        (RowSource::Active, RowSource::Sealed(_)) => true,
        (RowSource::Sealed(_), RowSource::Active) => false,
        (RowSource::Sealed(one), RowSource::Sealed(other)) => one.value < other.value || (one
            == other && left.row_id.local_row < right.row_id.local_row),
    }
}

/// A search returns the nearest rows: as many as were offered and at most `k`, each as
/// often as it was offered, the nearest first, and no row that it left out is nearer
/// than one that it returned.
pub proof fn lemma_a_search_returns_the_nearest_rows(offered: Seq<SearchCandidate>, k: nat)
    ensures
        ({
            let found = best(ranked(offered), k);
            &&& offered.len() <= k ==> found.len() == offered.len()
            &&& offered.len() > k ==> found.len() == k
            &&& found.to_multiset().subset_of(offered.to_multiset())
            &&& forall|i: int| 0 <= i < found.len() ==> offered.contains(#[trigger] found[i])
            &&& forall|i: int, j: int|
                0 <= i < j < found.len() ==> !nearer(#[trigger] found[j], #[trigger] found[i])
            &&& forall|x: SearchCandidate, i: int|
                offered.contains(x) && 0 <= i < found.len() && nearer(x, #[trigger] found[i])
                    ==> #[trigger] found.contains(x)
        }),
        gathered(GraphBoundMode::Shared, offered, k) == best(ranked(offered), k),
        gathered(GraphBoundMode::Independent, offered, k) == offered,
{
    let found = best(ranked(offered), k);
    lemma_best_is_a_selection(offered, k);
    assert forall|a: SearchCandidate, b: SearchCandidate| #[trigger] nearer(
        a,
        b,
    ) implies crate::rank::before(
        crate::rank::Ranked::rank(a),
        crate::rank::Ranked::rank(b),
    ) by {}
    assert forall|i: int| 0 <= i < found.len() implies offered.contains(#[trigger] found[i]) by {
        assert(found.contains(found[i]));
    }
    assert forall|x: SearchCandidate, i: int|
        offered.contains(x) && 0 <= i < found.len() && nearer(
            x,
            #[trigger] found[i],
        ) implies #[trigger] found.contains(x) by {}
}

/// Whether one row of a scan is nearer than another: by its score, then by its row.
pub open spec fn scanned_nearer(left: ScanCandidate, right: ScanCandidate) -> bool {
    left.score.order() > right.score.order() || (left.score == right.score && left.row_id
        < right.row_id)
}

/// A scan keeps the nearest rows: at least the nearest `k`, the nearest first, and of
/// the others exactly those whose score is that of the last of the `k`.
pub proof fn lemma_a_scan_keeps_the_nearest_rows(rows: Seq<ScanCandidate>, k: nat)
    ensures
        ({
            let found = best_with_ties(ranked(rows), k);
            &&& rows.len() <= k ==> found.len() == rows.len()
            &&& rows.len() > k ==> found.len() >= k
            &&& k == 0 ==> found.len() == 0
            &&& found.to_multiset().subset_of(rows.to_multiset())
            &&& forall|i: int| 0 <= i < found.len() ==> rows.contains(#[trigger] found[i])
            &&& forall|i: int, j: int|
                0 <= i < j < found.len() ==> !scanned_nearer(
                    #[trigger] found[j],
                    #[trigger] found[i],
                )
            &&& forall|x: ScanCandidate|
                0 < k <= rows.len() && rows.contains(x) ==> (#[trigger] found.contains(x)
                    <==> x.score.order() >= found[k - 1].score.order())
        }),
{
    let found = best_with_ties(ranked(rows), k);
    lemma_best_with_ties_is_a_selection(rows, k);
    assert forall|a: ScanCandidate, b: ScanCandidate| #[trigger] scanned_nearer(
        a,
        b,
    ) implies crate::rank::before(
        crate::rank::Ranked::rank(a),
        crate::rank::Ranked::rank(b),
    ) by {}
    assert forall|i: int| 0 <= i < found.len() implies rows.contains(#[trigger] found[i]) by {
        assert(found.contains(found[i]));
    }
}

/// Exact scores are handed on row by row.
pub proof fn lemma_rescored_rows_keep_their_scores(hits: Seq<RescoredHit>)
    ensures
        rescored_candidates(hits).len() == hits.len(),
        forall|i: int|
            0 <= i < hits.len() ==> (#[trigger] rescored_candidates(hits)[i]).row_id
                == hits[i].row_index && rescored_candidates(hits)[i].score == hits[i].score,
{
}

/// The live rows of a source are those that its list of live rows names, in order, and
/// their number is the number of such rows.
pub proof fn lemma_live_rows_are_the_rows_marked_alive(alive: Seq<bool>, n: nat)
    requires
        n <= u32::MAX + 1,
    ensures
        live_indices(alive, n).len() == live_rows(alive, n),
        forall|i: int|
            0 <= i < live_indices(alive, n).len() ==> {
                let row = (#[trigger] live_indices(alive, n)[i]) as int;
                row < n && row < alive.len() && alive[row]
            },
        forall|i: int, j: int|
            0 <= i < j < live_indices(alive, n).len() ==> (#[trigger] live_indices(alive, n)[i]) < (
            #[trigger] live_indices(alive, n)[j]),
        forall|row: u32|
            row < n && row < alive.len() && #[trigger] alive[row as int] ==> live_indices(
                alive,
                n,
            ).contains(row),
    decreases n,
{
    if n > 0 {
        let before = (n - 1) as nat;
        lemma_live_rows_are_the_rows_marked_alive(alive, before);
        let earlier = live_indices(alive, before);
        let all = live_indices(alive, n);
        assert forall|row: u32|
            row < n && row < alive.len() && #[trigger] alive[row as int] implies all.contains(
            row,
        ) by {
            if row < before {
                assert(earlier.contains(row));
                let at = choose|at: int| 0 <= at < earlier.len() && earlier[at] == row;
                assert(all[at] == row);
            } else {
                assert(all[earlier.len() as int] == row);
            }
        }
    }
}

/// The distance that a segment has to beat is that of the `k`-th candidate, where there
/// are `k` and it is a distance at all.
pub proof fn lemma_the_competitive_distance_is_the_kth(candidates: Seq<SearchCandidate>, k: nat)
    ensures
        competitive_distance(candidates, k) matches Some(distance) ==> 0 < k <= candidates.len()
            && distance == candidates[k - 1].score.spec_negated(),
        0 < k <= candidates.len() && candidates[k - 1].score.bits >= 0x8000_0000
            && candidates[k - 1].score.bits < 0xff80_0000 ==> competitive_distance(candidates, k)
            is Some,
{
}

/// The ceiling of a query is the largest of the bounds of its sources, and zero where
/// there is none above it; it fails exactly where a source has no finite bound.
pub proof fn lemma_the_ceiling_is_the_largest_bound(
    active: Option<Double>,
    segments: Seq<Result<Double, QueryError>>,
    n: nat,
)
    requires
        n <= segments.len(),
    ensures
        match ceiling(active, segments, n) {
            Ok(found) => {
                &&& numeric(found) >= 0
                &&& active matches Some(bound) ==> bound.spec_is_finite() && numeric(bound)
                    <= numeric(found)
                &&& forall|i: int|
                    0 <= i < n ==> ((#[trigger] segments[i]) matches Ok(bound)
                        && bound.spec_is_finite() && numeric(bound) <= numeric(found))
                &&& found.bits == 0 || active == Some(found) || exists|i: int|
                    0 <= i < n && #[trigger] segments[i] == Ok::<Double, QueryError>(found)
            },
            Err(_) => {
                ||| active matches Some(bound) && !bound.spec_is_finite()
                ||| exists|i: int|
                    0 <= i < n && match #[trigger] segments[i] {
                        Ok(bound) => !bound.spec_is_finite(),
                        Err(_) => true,
                    }
            },
        },
    decreases n,
{
    if n > 0 {
        lemma_the_ceiling_is_the_largest_bound(active, segments, (n - 1) as nat);
        assert(segments[n - 1] == segments[n - 1]);
    }
}

/// Numeric positions compare as the numbers do, and both zeros share one.
pub proof fn lemma_numeric_positions_compare_as_numbers(a: Double, b: Double)
    ensures
        a.bits < 0x8000_0000_0000_0000 && b.bits < 0x8000_0000_0000_0000 ==> (numeric(a) < numeric(
            b,
        ) <==> a.bits < b.bits),
        0x8000_0000_0000_0000 <= a.bits && 0x8000_0000_0000_0000 <= b.bits ==> (numeric(a)
            < numeric(b) <==> b.bits < a.bits),
        a.bits < 0x8000_0000_0000_0000 < b.bits ==> numeric(b) < numeric(a),
        numeric(Double { bits: 0 }) == 0 && numeric(Double { bits: 0x8000_0000_0000_0000 }) == 0,
{
}

/// Whether the segment at one place of the snapshot has a turn.
pub open spec fn has_turn(order: Seq<SegmentTurn>, ordinal: usize) -> bool {
    exists|i: int| 0 <= i < order.len() && (#[trigger] order[i]).ordinal == ordinal
}

/// Every sealed segment has its one turn: the turn names its place in the snapshot, and
/// where the segments share a bound the larger ones come first, equal ones by identity.
pub proof fn lemma_segments_take_turns(segments: Seq<SegmentFacts>, bound: GraphBoundMode)
    requires
        segments.len() <= usize::MAX,
    ensures
        ({
            let order = search_order(segments, bound);
            &&& order.len() == segments.len()
            &&& forall|i: int|
                0 <= i < order.len() ==> {
                    let ordinal = (#[trigger] order[i]).ordinal as int;
                    &&& ordinal < segments.len()
                    &&& order[i].row_count == segments[ordinal].row_count
                    &&& order[i].id == segments[ordinal].id
                }
            &&& forall|at: usize| at < segments.len() ==> #[trigger] has_turn(order, at)
            &&& bound == GraphBoundMode::Independent ==> forall|i: int|
                0 <= i < order.len() ==> (#[trigger] order[i]).ordinal == i
            &&& bound == GraphBoundMode::Shared ==> forall|i: int, j: int|
                0 <= i < j < order.len() ==> (#[trigger] order[i]).row_count > (
                #[trigger] order[j]).row_count || order[i].row_count == order[j].row_count
                    && order[i].id.value <= order[j].id.value
        }),
{
    let order = search_order(segments, bound);
    let all = turns(segments);
    lemma_ranked_is_permutation(all);
    lemma_ranked_is_ranked(all);
    crate::rank::lemma_permutation_keeps_members(ranked(all), all);
    assert forall|i: int| 0 <= i < order.len() implies {
        let ordinal = (#[trigger] order[i]).ordinal as int;
        &&& ordinal < segments.len()
        &&& order[i].row_count == segments[ordinal].row_count
        &&& order[i].id == segments[ordinal].id
    } by {
        assert(order.contains(order[i]));
        assert(all.contains(order[i]));
        let at = choose|at: int| 0 <= at < all.len() && all[at] == order[i];
        assert(all[at].ordinal == at);
    }
    assert forall|at: usize| at < segments.len() implies #[trigger] has_turn(order, at) by {
        let turn = all[at as int];
        assert(all.contains(turn));
        assert(order.contains(turn));
        let i = choose|i: int| 0 <= i < order.len() && order[i] == turn;
        assert(order[i].ordinal == at);
    }
    if bound == GraphBoundMode::Shared {
        assert forall|i: int, j: int| 0 <= i < j < order.len() implies (
        #[trigger] order[i]).row_count > (#[trigger] order[j]).row_count || order[i].row_count
            == order[j].row_count && order[i].id.value <= order[j].id.value by {
            assert(!crate::rank::before(
                crate::rank::Ranked::rank(order[j]),
                crate::rank::Ranked::rank(order[i]),
            ));
        }
    } else {
        assert forall|i: int| 0 <= i < order.len() implies (#[trigger] order[i]).ordinal == i by {
            assert(order[i] == all[i]);
        }
    }
}

/// Whether a candidate stands for a hit of a scan: the hit's row in the source that was
/// scanned, the hit's score, and the document that is pinned for that row.
pub open spec fn stands_for_row(
    candidate: SearchCandidate,
    hit: ScanCandidate,
    source: RowSource,
    documents: Seq<Option<DocumentVersion>>,
    exact_score: bool,
) -> bool {
    &&& candidate.row_id.source == source
    &&& candidate.row_id.local_row == hit.row_id
    &&& candidate.score == hit.score
    &&& candidate.exact_score == exact_score
    &&& candidate.document == if candidate.row_id.local_row < documents.len() {
        documents[candidate.row_id.local_row as int]
    } else {
        None
    }
}

/// Whether a list was extended by one candidate for each hit of a scan.
pub open spec fn extended_by_scan(
    before: Seq<SearchCandidate>,
    after: Seq<SearchCandidate>,
    hits: Seq<ScanCandidate>,
    source: RowSource,
    documents: Seq<Option<DocumentVersion>>,
    exact_score: bool,
) -> bool {
    &&& after.len() == before.len() + hits.len()
    &&& forall|i: int| 0 <= i < before.len() ==> #[trigger] after[i] == before[i]
    &&& forall|i: int|
        before.len() <= i < after.len() ==> stands_for_row(
            #[trigger] after[i],
            hits[i - before.len()],
            source,
            documents,
            exact_score,
        )
}

proof fn lemma_scan_extends(
    before: Seq<SearchCandidate>,
    hits: Seq<ScanCandidate>,
    source: RowSource,
    documents: Seq<Option<DocumentVersion>>,
    exact_score: bool,
)
    requires
        forall|i: int| 0 <= i < hits.len() ==> (#[trigger] hits[i]).row_id <= u32::MAX,
    ensures
        extended_by_scan(
            before,
            before + scan_candidates(hits, source, documents, exact_score),
            hits,
            source,
            documents,
            exact_score,
        ),
{
    lemma_scanned_rows_keep_their_documents(hits, source, documents, exact_score);
    let given = scan_candidates(hits, source, documents, exact_score);
    let after = before + given;
    assert forall|i: int| before.len() <= i < after.len() implies stands_for_row(
        #[trigger] after[i],
        hits[i - before.len()],
        source,
        documents,
        exact_score,
    ) by {
        assert(after[i] == given[i - before.len()]);
    }
}

/// A merged scan adds one candidate for each of its hits, with the document of that
/// hit's own row, and its work; a refused one adds nothing. It is refused where its
/// work cannot be counted, memory is denied, a row cannot be addressed or a document
/// could not be read, and nowhere else.
pub proof fn lemma_a_merged_scan_adds_its_rows(
    totals: &mut SearchTotals,
    outcome: &ScanOutcome,
    source: RowSource,
    documents: &Vec<Option<DocumentVersion>>,
    unread: Option<UnreadDocument>,
    exact_score: bool,
    denied: bool,
    result: Result<(), QueryError>,
)
    requires
        call_ensures(
            merge_store_outcome,
            (totals, outcome, source, documents, unread, exact_score, denied),
            result,
        ),
    ensures
        result is Ok ==> {
            &&& extended_by_scan(
                old(totals).candidates@,
                final(totals).candidates@,
                outcome.candidates@,
                source,
                documents@,
                exact_score,
            )
            &&& final(totals).dims_touched == old(totals).dims_touched
                + outcome.stats.dims_touched
            &&& final(totals).bytes_read == old(totals).bytes_read + outcome.stats.bytes_read
            &&& final(totals).graph_stats == old(totals).graph_stats
            &&& forall|id: u64| #[trigger]
                final(totals).worker_thread_ids@.contains(id) <==> old(
                    totals,
                ).worker_thread_ids@.contains(id) || outcome.stats.worker_thread_ids@.contains(id)
        },
        result is Err ==> final(totals).candidates@ == old(totals).candidates@
            && final(totals).dims_touched == old(totals).dims_touched
            && final(totals).bytes_read == old(totals).bytes_read,
        old(totals).dims_touched + outcome.stats.dims_touched <= u64::MAX && old(totals).bytes_read
            + outcome.stats.bytes_read <= u64::MAX && !denied && unread is None
            && outcome.candidates@.len() * vstd::layout::size_of::<SearchCandidate>() <= u64::MAX
            && (forall|i: int|
            0 <= i < outcome.candidates@.len() ==> (#[trigger] outcome.candidates@[i]).row_id
                <= u32::MAX) ==> result is Ok,
{
    lemma_union_members(old(totals).worker_thread_ids@, outcome.stats.worker_thread_ids@);
    if result is Ok {
        lemma_scan_extends(
            old(totals).candidates@,
            outcome.candidates@,
            source,
            documents@,
            exact_score,
        );
    }
}

/// Joined lists hold what either holds.
pub proof fn lemma_union_members(ids: Seq<u64>, more: Seq<u64>)
    ensures
        forall|id: u64|
            #[trigger] distinct_union(ids, more).contains(id) <==> ids.contains(id)
                || more.contains(id),
    decreases more.len(),
{
    if more.len() > 0 {
        let rest = more.drop_last();
        lemma_union_members(ids, rest);
        let before = distinct_union(ids, rest);
        let after = distinct_union(ids, more);
        assert forall|id: u64| #[trigger] after.contains(id) <==> ids.contains(id)
            || more.contains(id) by {
            if more.contains(id) {
                let at = choose|at: int| 0 <= at < more.len() && more[at] == id;
                if at < rest.len() {
                    assert(rest[at] == id);
                }
            }
            if rest.contains(id) {
                let at = choose|at: int| 0 <= at < rest.len() && rest[at] == id;
                assert(more[at] == id);
            }
            assert(more[more.len() - 1] == more.last());
            if before.contains(id) {
                let at = choose|at: int| 0 <= at < before.len() && before[at] == id;
                assert(after[at] == id);
            }
            if after.contains(id) && !before.contains(id) {
                let at = choose|at: int| 0 <= at < after.len() && after[at] == id;
                assert(at == before.len());
            }
            if !before.contains(more.last()) {
                assert(after[before.len() as int] == more.last());
            }
        }
    } else {
        assert(distinct_union(ids, more) == ids);
    }
}

/// An accepted scan of the active segment offers one candidate for each of its hits,
/// with the document of that hit's own active row; the active segment is done with.
pub proof fn lemma_the_active_scan_offers_its_rows(
    search: &mut VectorSearch,
    segments: &Vec<SegmentFacts>,
    active: &ActiveFacts,
    outcome: &ScanOutcome,
    denied: bool,
    result: Result<(), QueryError>,
)
    requires
        call_ensures(
            VectorSearch::accept_active,
            (search, segments, active, outcome, denied),
            result,
        ),
        result is Ok,
    ensures
        extended_by_scan(
            old(search).offered@,
            final(search).offered@,
            outcome.candidates@,
            RowSource::Active,
            active.documents@,
            old(search).full_precision,
        ),
        !final(search).active_due,
        final(search).done == old(search).done,
        final(search).k == old(search).k,
        final(search).tier == old(search).tier,
        final(search).totals.dims_touched == old(search).totals.dims_touched
            + outcome.stats.dims_touched,
        final(search).totals.bytes_read == old(search).totals.bytes_read
            + outcome.stats.bytes_read,
        final(search).plans@.len() == old(search).plans@.len() + 1,
        final(search).plans@.last().source == RowSource::Active,
        final(search).plans@.last().choice is Scan,
{
    lemma_scan_extends(
        old(search).offered@,
        outcome.candidates@,
        RowSource::Active,
        active.documents@,
        old(search).full_precision,
    );
}

/// An accepted scan of a sealed segment offers one candidate for each of its hits, with
/// the document of that hit's own row of that segment; the next segment has its turn.
/// Its scores are exact where full precision was read or is what the segment stores.
pub proof fn lemma_a_sealed_scan_offers_its_rows(
    search: &mut VectorSearch,
    segments: &Vec<SegmentFacts>,
    outcome: &ScanOutcome,
    min_rows: u32,
    unread: Option<UnreadDocument>,
    denied: bool,
    result: Result<(), QueryError>,
)
    requires
        call_ensures(
            VectorSearch::accept_scan,
            (search, segments, outcome, min_rows, unread, denied),
            result,
        ),
        result is Ok,
    ensures
        ({
            let segment = segments@[old(search).order@[old(search).done as int].ordinal as int];
            &&& extended_by_scan(
                old(search).offered@,
                final(search).offered@,
                outcome.candidates@,
                RowSource::Sealed(segment.id),
                segment.documents@,
                old(search).full_precision || segment.scheme == 0,
            )
            &&& final(search).done == old(search).done + 1
            &&& final(search).active_due == old(search).active_due
            &&& final(search).k == old(search).k
            &&& final(search).tier == old(search).tier
            &&& final(search).totals.dims_touched == old(search).totals.dims_touched
                + outcome.stats.dims_touched
            &&& final(search).totals.bytes_read == old(search).totals.bytes_read
                + outcome.stats.bytes_read
            &&& final(search).plans@.len() == old(search).plans@.len() + 1
            &&& final(search).plans@.last().source == RowSource::Sealed(segment.id)
            &&& final(search).plans@.last().choice is Scan
        }),
{
    let segment = segments@[old(search).order@[old(search).done as int].ordinal as int];
    lemma_scan_extends(
        old(search).offered@,
        outcome.candidates@,
        RowSource::Sealed(segment.id),
        segment.documents@,
        old(search).full_precision || segment.scheme == 0,
    );
}

/// An accepted traversal of a sealed segment offers a candidate for every hit whose row
/// is alive, with the document of that row, and for no other; one that was ruled out
/// offers none.
pub proof fn lemma_a_traversal_offers_its_live_rows(
    search: &mut VectorSearch,
    segments: &Vec<SegmentFacts>,
    graph: SegmentGraphResult,
    unread: Option<UnreadDocument>,
    denied: bool,
    result: Result<(), QueryError>,
)
    requires
        call_ensures(
            VectorSearch::accept_graph,
            (search, segments, graph, unread, denied),
            result,
        ),
        result is Ok,
    ensures
        ({
            let segment = segments@[old(search).order@[old(search).done as int].ordinal as int];
            let source = RowSource::Sealed(segment.id);
            let (before, after) = (old(search).offered@, final(search).offered@);
            &&& before.len() <= after.len()
            &&& forall|i: int| 0 <= i < before.len() ==> #[trigger] after[i] == before[i]
            &&& final(search).done == old(search).done + 1
            &&& final(search).active_due == old(search).active_due
            &&& final(search).k == old(search).k
            &&& final(search).plans@.len() == old(search).plans@.len() + 1
            &&& match graph {
                SegmentGraphResult::Pruned { plan, .. } => after.len() == before.len()
                    && final(search).plans@.last() == plan,
                SegmentGraphResult::Traversed { hits, plan, dims_touched, bytes_read, .. } => {
                    &&& final(search).plans@.last() == plan
                    &&& final(search).totals.dims_touched == old(search).totals.dims_touched
                        + dims_touched
                    &&& final(search).totals.bytes_read == old(search).totals.bytes_read
                        + bytes_read
                    &&& forall|i: int|
                        before.len() <= i < after.len() ==> {
                            let row = (#[trigger] after[i]).row_id.local_row as int;
                            &&& row < segment.alive@.len() && segment.alive@[row]
                            &&& exists|j: int|
                                0 <= j < hits@.len() && stands_for_hit(
                                    after[i],
                                    #[trigger] hits@[j],
                                    source,
                                    segment.documents@,
                                )
                        }
                    &&& forall|j: int|
                        0 <= j < hits@.len() && (#[trigger] hits@[j]).row_id < segment.alive@.len()
                            && segment.alive@[hits@[j].row_id as int] ==> exists|i: int|
                            before.len() <= i < after.len() && stands_for_hit(
                                #[trigger] after[i],
                                hits@[j],
                                source,
                                segment.documents@,
                            )
                },
            }
        }),
{
    let segment = segments@[old(search).order@[old(search).done as int].ordinal as int];
    let source = RowSource::Sealed(segment.id);
    let (before, after) = (old(search).offered@, final(search).offered@);
    let given = graph.gives(segment.alive@, source, segment.documents@);
    lemma_a_pruned_segment_gives_nothing(graph, segment.alive@, source, segment.documents@);
    assert(after == before + given);
    if let SegmentGraphResult::Traversed { hits, .. } = graph {
        assert forall|i: int| before.len() <= i < after.len() implies {
            let row = (#[trigger] after[i]).row_id.local_row as int;
            &&& row < segment.alive@.len() && segment.alive@[row]
            &&& exists|j: int|
                0 <= j < hits@.len() && stands_for_hit(
                    after[i],
                    #[trigger] hits@[j],
                    source,
                    segment.documents@,
                )
        } by {
            assert(after[i] == given[i - before.len()]);
        }
        assert forall|j: int|
            0 <= j < hits@.len() && (#[trigger] hits@[j]).row_id < segment.alive@.len()
                && segment.alive@[hits@[j].row_id as int] implies exists|i: int|
            before.len() <= i < after.len() && stands_for_hit(
                #[trigger] after[i],
                hits@[j],
                source,
                segment.documents@,
            ) by {
            let i = choose|i: int|
                0 <= i < given.len() && stands_for_hit(
                    #[trigger] given[i],
                    hits@[j],
                    source,
                    segment.documents@,
                );
            assert(after[before.len() + i] == given[i]);
        }
    }
}

/// A finished search returns the nearest of all rows that its sources offered: at most
/// `k`, the nearest first, each as often as it was offered, and none that was left out
/// is nearer than one that was returned. What it reports of itself is what it did.
pub proof fn lemma_a_finished_search_returns_the_nearest_rows(
    search: VectorSearch,
    segments: &Vec<SegmentFacts>,
    active: &ActiveFacts,
    closing: SearchClosing,
    result: Result<SearchOutcome, QueryError>,
)
    requires
        call_ensures(VectorSearch::finish, (search, segments, active, closing), result),
        closing.recorded is Ok,
        closing.ceiling is Ok,
    ensures
        result matches Ok(outcome) && {
            let found = outcome.candidates@;
            let offered = search.offered@;
            &&& offered.len() <= search.k ==> found.len() == offered.len()
            &&& offered.len() > search.k ==> found.len() == search.k
            &&& found.to_multiset().subset_of(offered.to_multiset())
            &&& forall|i: int| 0 <= i < found.len() ==> offered.contains(#[trigger] found[i])
            &&& forall|i: int, j: int|
                0 <= i < j < found.len() ==> !nearer(#[trigger] found[j], #[trigger] found[i])
            &&& forall|x: SearchCandidate, i: int|
                offered.contains(x) && 0 <= i < found.len() && nearer(x, #[trigger] found[i])
                    ==> #[trigger] found.contains(x)
            &&& outcome.vector_ceiling == Some(closing.ceiling->Ok_0)
            &&& outcome.generation == closing.generation
            &&& outcome.epoch == closing.epoch
            &&& outcome.stats.dims_touched == search.totals.dims_touched
            &&& outcome.stats.bytes_read == search.totals.bytes_read
            &&& outcome.diagnostics.returned == found.len()
            &&& outcome.diagnostics.requested_k == search.k
            &&& outcome.diagnostics.plan@ == search.plans@
            &&& outcome.diagnostics.snapshot_generation == closing.generation
            &&& outcome.diagnostics.indexed_through_seq >= active.indexed_through_seq
            &&& outcome.diagnostics.indexed_through_seq >= closing.absorbed_through
            &&& outcome.diagnostics.indexed_through_seq == active.indexed_through_seq
                || outcome.diagnostics.indexed_through_seq == closing.absorbed_through
            &&& outcome.diagnostics.approximate <==> exists|i: int|
                0 <= i < search.plans@.len() && (#[trigger] search.plans@[i]).choice is Graph
            &&& outcome.diagnostics.exact_rescore <==> forall|i: int|
                0 <= i < found.len() ==> (#[trigger] found[i]).exact_score
        },
{
    lemma_a_search_returns_the_nearest_rows(search.offered@, search.k as nat);
    assert forall|i: int|
        0 <= i < search.plans@.len() implies (#[trigger] search.plans@[i]).spec_approximate()
        == (search.plans@[i].choice is Graph) by {}
}

/// A search that could not record its plans, or has no ceiling, fails for that reason.
pub proof fn lemma_an_unrecorded_search_fails(
    search: VectorSearch,
    segments: &Vec<SegmentFacts>,
    active: &ActiveFacts,
    closing: SearchClosing,
    result: Result<SearchOutcome, QueryError>,
)
    requires
        call_ensures(VectorSearch::finish, (search, segments, active, closing), result),
    ensures
        closing.recorded matches Err(error) ==> result == Err::<SearchOutcome, QueryError>(
            QueryError::Store(error),
        ),
        closing.recorded is Ok && closing.ceiling is Err ==> result == Err::<
            SearchOutcome,
            QueryError,
        >(closing.ceiling->Err_0),
{
}

/// The running best of a search are the nearest of what was offered.
pub proof fn lemma_the_running_best_are_the_nearest(
    candidates: &mut Vec<SearchCandidate>,
    k: usize,
)
    requires
        call_ensures(retain_global_top_k, (candidates, k), ()),
    ensures
        ({
            let (offered, found) = (old(candidates)@, final(candidates)@);
            &&& offered.len() <= k ==> found.len() == offered.len()
            &&& offered.len() > k ==> found.len() == k
            &&& found.to_multiset().subset_of(offered.to_multiset())
            &&& forall|i: int, j: int|
                0 <= i < j < found.len() ==> !nearer(#[trigger] found[j], #[trigger] found[i])
            &&& forall|x: SearchCandidate, i: int|
                offered.contains(x) && 0 <= i < found.len() && nearer(x, #[trigger] found[i])
                    ==> #[trigger] found.contains(x)
        }),
{
    lemma_a_search_returns_the_nearest_rows(old(candidates)@, k as nat);
}

/// A source's live rows are gathered in order, each once, and no other row.
pub proof fn lemma_live_rows_are_gathered<S: StopSource>(
    row_count: usize,
    alive: &Vec<bool>,
    poll: &mut StopPoll<S>,
    result: Result<Vec<u32>, QueryError>,
)
    requires
        call_ensures(live_row_indices::<S>, (row_count, alive, poll), result),
        result is Ok,
    ensures
        ({
            let rows = result->Ok_0@;
            &&& forall|i: int|
                0 <= i < rows.len() ==> {
                    let row = (#[trigger] rows[i]) as int;
                    row < row_count && row < alive@.len() && alive@[row]
                }
            &&& forall|i: int, j: int|
                0 <= i < j < rows.len() ==> (#[trigger] rows[i]) < (#[trigger] rows[j])
            &&& forall|row: u32|
                row < row_count && row < alive@.len() && #[trigger] alive@[row as int]
                    ==> rows.contains(row)
        }),
{
    lemma_live_rows_are_the_rows_marked_alive(alive@, row_count as nat);
}

/// An exhaustive scan returns the nearest of the rows that were scored, with their own
/// scores, and how far the farthest of them is.
pub proof fn lemma_an_exhaustive_scan_ranks_the_scored_rows(
    hits: &Vec<RescoredHit>,
    candidates_rescored: usize,
    dimension: usize,
    k: usize,
    thread: u64,
    result: Result<ScanOutcome, QueryError>,
)
    requires
        call_ensures(rank_rescored, (hits, candidates_rescored, dimension, k, thread), result),
        result is Ok,
    ensures
        ({
            let outcome = result->Ok_0;
            let found = outcome.candidates@;
            &&& hits@.len() <= k ==> found.len() == hits@.len()
            &&& hits@.len() > k ==> found.len() >= k
            &&& k == 0 ==> found.len() == 0
            &&& forall|i: int|
                0 <= i < found.len() ==> exists|h: int|
                    0 <= h < hits@.len() && (#[trigger] hits@[h]).row_index == (
                    #[trigger] found[i]).row_id && hits@[h].score == found[i].score
            &&& forall|i: int, j: int|
                0 <= i < j < found.len() ==> !scanned_nearer(
                    #[trigger] found[j],
                    #[trigger] found[i],
                )
            &&& forall|h: int|
                0 < k <= hits@.len() && 0 <= h < hits@.len() && (
                #[trigger] hits@[h]).score.order() >= found[k - 1].score.order()
                    ==> found.contains(
                    ScanCandidate { row_id: hits@[h].row_index, score: hits@[h].score },
                )
            &&& hits@.len() == 0 ==> outcome.worst_score is None
            &&& hits@.len() > 0 ==> (outcome.worst_score matches Some(worst) && (exists|h: int|
                0 <= h < hits@.len() && (#[trigger] hits@[h]).score == worst) && forall|h: int|
                0 <= h < hits@.len() ==> (#[trigger] hits@[h]).score.order() >= worst.order())
            &&& forall|h: int|
                0 <= h < hits@.len() ==> (#[trigger] hits@[h]).score.spec_is_finite()
            &&& outcome.stats.dims_touched == candidates_rescored * dimension
            &&& outcome.stats.bytes_read == 4 * candidates_rescored * dimension
            &&& outcome.stats.worker_thread_ids@ == seq![thread]
        }),
{
    let rows = rescored_candidates(hits@);
    let outcome = result->Ok_0;
    let found = outcome.candidates@;
    lemma_rescored_rows_keep_their_scores(hits@);
    lemma_a_scan_keeps_the_nearest_rows(rows, k as nat);
    lemma_ranked_is_permutation(rows);
    lemma_ranked_is_ranked(rows);
    crate::rank::lemma_permutation_keeps_members(ranked(rows), rows);
    assert forall|i: int| 0 <= i < found.len() implies exists|h: int|
        0 <= h < hits@.len() && (#[trigger] hits@[h]).row_index == (#[trigger] found[i]).row_id
            && hits@[h].score == found[i].score by {
        assert(rows.contains(found[i]));
        let h = choose|h: int| 0 <= h < rows.len() && rows[h] == found[i];
        assert(hits@[h].row_index == found[i].row_id);
    }
    assert forall|h: int|
        0 < k <= hits@.len() && 0 <= h < hits@.len() && (#[trigger] hits@[h]).score.order()
            >= found[k - 1].score.order() implies found.contains(
        ScanCandidate { row_id: hits@[h].row_index, score: hits@[h].score },
    ) by {
        assert(rows[h] == (ScanCandidate { row_id: hits@[h].row_index, score: hits@[h].score }));
        assert(rows.contains(rows[h]));
    }
    if hits@.len() > 0 {
        let order = ranked(rows);
        let worst = order.last();
        assert(order.contains(worst)) by {
            assert(order[order.len() - 1] == worst);
        }
        assert(rows.contains(worst));
        let h = choose|h: int| 0 <= h < rows.len() && rows[h] == worst;
        assert(hits@[h].score == worst.score);
        assert forall|h: int| 0 <= h < hits@.len() implies (#[trigger] hits@[h]).score.order()
            >= worst.score.order() by {
            assert(rows[h].score == hits@[h].score);
            assert(rows.contains(rows[h]));
            assert(order.contains(rows[h]));
            let at = choose|at: int| 0 <= at < order.len() && order[at] == rows[h];
            if at < order.len() - 1 {
                assert(!crate::rank::before(
                    crate::rank::Ranked::rank(order[order.len() - 1]),
                    crate::rank::Ranked::rank(order[at]),
                ));
            }
        }
    }
    assert(candidates_rescored * dimension * 4 == 4 * candidates_rescored * dimension)
        by (nonlinear_arith);
}

/// The ceiling of a query is the largest of its sources' bounds.
pub proof fn lemma_the_folded_ceiling_is_the_largest_bound(
    active: Option<Double>,
    segments: Vec<Result<Double, QueryError>>,
    result: Result<Double, QueryError>,
)
    requires
        call_ensures(fold_exact_vector_ceiling, (active, segments), result),
    ensures
        match result {
            Ok(found) => {
                &&& active matches Some(bound) ==> bound.spec_is_finite() && numeric(bound)
                    <= numeric(found)
                &&& forall|i: int|
                    0 <= i < segments@.len() ==> ((#[trigger] segments@[i]) matches Ok(bound)
                        && bound.spec_is_finite() && numeric(bound) <= numeric(found))
                &&& found.bits == 0 || active == Some(found) || exists|i: int|
                    0 <= i < segments@.len() && #[trigger] segments@[i] == Ok::<Double, QueryError>(
                        found,
                    )
            },
            Err(_) => {
                ||| active matches Some(bound) && !bound.spec_is_finite()
                ||| exists|i: int|
                    0 <= i < segments@.len() && match #[trigger] segments@[i] {
                        Ok(bound) => !bound.spec_is_finite(),
                        Err(_) => true,
                    }
            },
        },
{
    lemma_the_ceiling_is_the_largest_bound(active, segments@, segments@.len());
}

} // verus!
