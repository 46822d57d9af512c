//! What the scores that a round of a hybrid search fills in are: those of the very rows
//! that lacked them.

use crate::candidates::LexicalHit;
use crate::candidates::SearchCandidate;
use crate::candidates::SearchCounters;
use crate::candidates::StructuredLexicalSource;
use crate::corpus::unread_at;
use crate::corpus::ActiveFacts;
use crate::corpus::SegmentFacts;
use crate::corpus::UnreadDocument;
use crate::cross_fill::cross_fill_row;
use crate::cross_fill::cross_fill_source;
use crate::cross_fill::CrossFillRow;
use crate::cross_lexical::answered;
use crate::cross_lexical::batch_of;
use crate::cross_lexical::cross_score_lexical;
use crate::cross_lexical::ordinal_of;
use crate::cross_lexical::route_missing;
use crate::cross_lexical::route_of;
use crate::cross_lexical::scattered;
use crate::cross_lexical::scores_of;
use crate::cross_lexical::structured_cross_scores;
use crate::cross_lexical::structured_score;
use crate::cross_lexical::BatchScores;
use crate::cross_lexical::Route;
use crate::cross_lexical::RoutedRow;
use crate::cross_score::CrossScoreCache;
use crate::cross_score::CrossScoreKey;
use crate::error::QueryError;
use crate::error::SegmentError;
use crate::fusion::FusionError;
use crate::hybrid_laws::hits_resolve;
use crate::hybrid_laws::identity_of_candidate;
use crate::hybrid_laws::identity_of_hit;
use crate::identity::identity_of;
use crate::identity::PhysicalIdentity;
use crate::ids::DocumentVersion;
use crate::ids::GlobalDocId;
use crate::ids::RowSource;
use crate::ids::SegmentId;
use crate::lexical::ControlledSearchError;
use crate::lexical_laws::sum_of;
use crate::observations::HybridScoreObserver;
use crate::poll::StopPoll;
use crate::poll::StopSource;
use crate::score::Double;
use vstd::prelude::*;

verus! {

/// Whether a lexical source stands for a row source: the active one for the active
/// segment, a sealed one for the segment of its identity.
pub open spec fn stands_for_source(
    segments: Seq<SegmentFacts>,
    lexical: StructuredLexicalSource,
    source: RowSource,
) -> bool {
    match (lexical, source) {
        (StructuredLexicalSource::Active, RowSource::Active) => true,
        (StructuredLexicalSource::Sealed(ordinal), RowSource::Sealed(id)) => ordinal
            < segments.len() && segments[ordinal as int].id == id,
        _ => false,
    }
}

/// Whether a row of a lexical source is alive and pinned for a document.
pub open spec fn pins_alive(
    segments: Seq<SegmentFacts>,
    active: ActiveFacts,
    lexical: StructuredLexicalSource,
    row: u32,
    document: Option<DocumentVersion>,
) -> bool {
    let (documents, alive) = match lexical {
        StructuredLexicalSource::Active => (active.documents@, active.alive@),
        StructuredLexicalSource::Sealed(ordinal) => (
            segments[ordinal as int].documents@,
            segments[ordinal as int].alive@,
        ),
    };
    &&& row < alive.len() && alive[row as int]
    &&& document == if row < documents.len() {
        documents[row as int]
    } else {
        None
    }
}

proof fn lemma_ordinal_is_the_first(
    segments: Seq<SegmentFacts>,
    sources: Seq<StructuredLexicalSource>,
    source: RowSource,
    at: nat,
)
    ensures
        match ordinal_of(segments, sources, source, at) {
            Some(ordinal) => at <= ordinal < sources.len() && stands_for_source(
                segments,
                sources[ordinal],
                source,
            ) && forall|o: int|
                at <= o < ordinal ==> !stands_for_source(segments, #[trigger] sources[o], source),
            None => forall|o: int|
                at <= o < sources.len() ==> !stands_for_source(
                    segments,
                    #[trigger] sources[o],
                    source,
                ),
        },
    decreases sources.len() - at,
{
    if at < sources.len() {
        lemma_ordinal_is_the_first(segments, sources, source, at + 1);
        assert(crate::cross_lexical::source_matches(segments, sources[at as int], source)
            <==> stands_for_source(segments, sources[at as int], source));
    }
}

proof fn lemma_route(
    segments: Seq<SegmentFacts>,
    active: ActiveFacts,
    sources: Seq<StructuredLexicalSource>,
    candidate: SearchCandidate,
    unread: Option<SegmentError>,
)
    requires
        sources.len() <= usize::MAX,
    ensures
        match route_of(segments, active, sources, candidate, unread) {
            Route::To(ordinal) => ordinal < sources.len() && stands_for_source(
                segments,
                sources[ordinal as int],
                candidate.row_id.source,
            ) && pins_alive(
                segments,
                active,
                sources[ordinal as int],
                candidate.row_id.local_row,
                candidate.document,
            ),
            Route::NoText => forall|o: int|
                0 <= o < sources.len() ==> !stands_for_source(
                    segments,
                    #[trigger] sources[o],
                    candidate.row_id.source,
                ),
            _ => true,
        },
{
    lemma_ordinal_is_the_first(segments, sources, candidate.row_id.source, 0);
}

proof fn lemma_batch(
    segments: Seq<SegmentFacts>,
    active: ActiveFacts,
    sources: Seq<StructuredLexicalSource>,
    missing: Seq<SearchCandidate>,
    unread: Option<UnreadDocument>,
    ordinal: usize,
    n: nat,
)
    requires
        n <= missing.len() <= usize::MAX,
    ensures
        ({
            let batch = batch_of(segments, active, sources, missing, unread, ordinal, n);
            &&& forall|b: int|
                0 <= b < batch.len() ==> {
                    let at = (#[trigger] batch[b]).position as int;
                    &&& at < n
                    &&& batch[b].row == missing[at].row_id.local_row
                    &&& route_of(segments, active, sources, missing[at], unread_at(unread, at))
                        == Route::To(ordinal)
                }
            &&& forall|b: int, c: int|
                0 <= b < c < batch.len() ==> (#[trigger] batch[b]).position < (
                #[trigger] batch[c]).position
            &&& forall|at: int|
                0 <= at < n && route_of(
                    segments,
                    active,
                    sources,
                    #[trigger] missing[at],
                    unread_at(unread, at),
                ) == Route::To(ordinal) ==> exists|b: int|
                    0 <= b < batch.len() && (#[trigger] batch[b]).position == at
        }),
    decreases n,
{
    if n > 0 {
        let less = (n - 1) as nat;
        lemma_batch(segments, active, sources, missing, unread, ordinal, less);
        let earlier = batch_of(segments, active, sources, missing, unread, ordinal, less);
        let batch = batch_of(segments, active, sources, missing, unread, ordinal, n);
        assert forall|at: int|
            0 <= at < n && route_of(
                segments,
                active,
                sources,
                #[trigger] missing[at],
                unread_at(unread, at),
            ) == Route::To(ordinal) implies exists|b: int|
            0 <= b < batch.len() && (#[trigger] batch[b]).position == at by {
            if at < less {
                let b = choose|b: int|
                    0 <= b < earlier.len() && (#[trigger] earlier[b]).position == at;
                assert(batch[b].position == at);
            } else {
                assert(batch[earlier.len() as int].position == at);
            }
        }
    }
}

/// Every row that lacks a lexical score is sent to the source that holds its text, as
/// its own row number and with its own position, provided that the row is alive there
/// and pinned for its own document. None is sent twice, and one is left out only where
/// no source holds text of its segment.
pub proof fn lemma_missing_rows_are_sent_to_their_own_source<S: StopSource>(
    segments: &Vec<SegmentFacts>,
    active: &ActiveFacts,
    sources: &Vec<StructuredLexicalSource>,
    missing: &Vec<SearchCandidate>,
    unread: Option<UnreadDocument>,
    poll: &mut StopPoll<S>,
    result: Result<Vec<Vec<RoutedRow>>, FusionError>,
)
    requires
        call_ensures(
            route_missing::<S>,
            (segments, active, sources, missing, unread, poll),
            result,
        ),
        result is Ok,
    ensures
        ({
            let batches = result->Ok_0@;
            &&& batches.len() == sources@.len()
            &&& forall|o: int, b: int|
                0 <= o < batches.len() && 0 <= b < batches[o]@.len() ==> {
                    let sent = #[trigger] batches[o]@[b];
                    let candidate = missing@[sent.position as int];
                    &&& sent.position < missing@.len()
                    &&& sent.row == candidate.row_id.local_row
                    &&& stands_for_source(segments@, sources@[o], candidate.row_id.source)
                    &&& pins_alive(
                        segments@,
                        *active,
                        sources@[o],
                        sent.row,
                        candidate.document,
                    )
                }
            &&& forall|o: int, b: int, p: int, c: int|
                0 <= o < batches.len() && 0 <= b < batches[o]@.len() && 0 <= p < batches.len() && 0
                    <= c < batches[p]@.len() && (#[trigger] batches[o]@[b]).position == (
                #[trigger] batches[p]@[c]).position ==> o == p && b == c
            &&& forall|at: int, o: int|
                0 <= at < missing@.len() && 0 <= o < sources@.len() && stands_for_source(
                    segments@,
                    #[trigger] sources@[o],
                    (#[trigger] missing@[at]).row_id.source,
                ) ==> is_sent(batches, at)
        }),
{
    let batches = result->Ok_0@;
    assert(missing@.len() == missing.len() && sources@.len() == sources.len());
    assert forall|o: int, b: int|
        0 <= o < batches.len() && 0 <= b < batches[o]@.len() implies {
        let sent = #[trigger] batches[o]@[b];
        let candidate = missing@[sent.position as int];
        &&& sent.position < missing@.len()
        &&& sent.row == candidate.row_id.local_row
        &&& stands_for_source(segments@, sources@[o], candidate.row_id.source)
        &&& pins_alive(segments@, *active, sources@[o], sent.row, candidate.document)
    } by {
        lemma_batch(
            segments@,
            *active,
            sources@,
            missing@,
            unread,
            o as usize,
            missing@.len(),
        );
        let at = batches[o]@[b].position as int;
        lemma_route(segments@, *active, sources@, missing@[at], unread_at(unread, at));
    }
    assert forall|o: int, b: int, p: int, c: int|
        0 <= o < batches.len() && 0 <= b < batches[o]@.len() && 0 <= p < batches.len() && 0 <= c
            < batches[p]@.len() && (#[trigger] batches[o]@[b]).position == (
        #[trigger] batches[p]@[c]).position implies o == p && b == c by {
        lemma_batch(
            segments@,
            *active,
            sources@,
            missing@,
            unread,
            o as usize,
            missing@.len(),
        );
        lemma_batch(
            segments@,
            *active,
            sources@,
            missing@,
            unread,
            p as usize,
            missing@.len(),
        );
        assert(o == p);
        if b < c {
            assert(batches[o]@[b].position < batches[o]@[c].position);
        } else if c < b {
            assert(batches[o]@[c].position < batches[o]@[b].position);
        }
    }
    assert forall|at: int, o: int|
        0 <= at < missing@.len() && 0 <= o < sources@.len() && stands_for_source(
            segments@,
            #[trigger] sources@[o],
            (#[trigger] missing@[at]).row_id.source,
        ) implies is_sent(batches, at) by {
        let route = route_of(
            segments@,
            *active,
            sources@,
            missing@[at],
            unread_at(unread, at),
        );
        lemma_route(segments@, *active, sources@, missing@[at], unread_at(unread, at));
        assert(!crate::cross_lexical::refuses(route));
        if let Route::To(ordinal) = route {
            lemma_batch(
                segments@,
                *active,
                sources@,
                missing@,
                unread,
                ordinal,
                missing@.len(),
            );
            let batch = batches[ordinal as int]@;
            let b = choose|b: int| 0 <= b < batch.len() && (#[trigger] batch[b]).position == at;
            assert(batches[ordinal as int]@[b].position == at);
        }
    }
}

/// Whether the row at one position is sent to a source.
pub open spec fn is_sent(batches: Seq<Vec<RoutedRow>>, at: int) -> bool {
    exists|o: int, b: int|
        0 <= o < batches.len() && 0 <= b < batches[o]@.len() && (
        #[trigger] batches[o]@[b]).position == at
}

proof fn lemma_scattered_scores(
    scores: Seq<Double>,
    batch: Seq<RoutedRow>,
    results: Seq<Option<Double>>,
    n: nat,
    at: int,
)
    requires
        n <= batch.len(),
        n <= results.len(),
        0 <= at < scores.len(),
        forall|b: int| 0 <= b < n ==> (#[trigger] batch[b]).position < scores.len(),
    ensures
        scattered(scores, batch, results, n).len() == scores.len(),
        (forall|b: int| 0 <= b < n ==> (#[trigger] batch[b]).position != at) ==> scattered(
            scores,
            batch,
            results,
            n,
        )[at] == scores[at],
        forall|b: int|
            0 <= b < n && (#[trigger] batch[b]).position == at && (forall|c: int|
                b < c < n ==> (#[trigger] batch[c]).position != at) ==> scattered(
                scores,
                batch,
                results,
                n,
            )[at] == match results[b] {
                Some(score) => score,
                None => Double { bits: 0 },
            },
    decreases n,
{
    if n > 0 {
        lemma_scattered_scores(scores, batch, results, (n - 1) as nat, at);
    }
}

/// Whether the position of a row is named only once.
pub open spec fn named_once(batches: Seq<Vec<RoutedRow>>) -> bool {
    forall|o: int, b: int, p: int, c: int|
        0 <= o < batches.len() && 0 <= b < batches[o]@.len() && 0 <= p < batches.len() && 0 <= c
            < batches[p]@.len() && (#[trigger] batches[o]@[b]).position == (
        #[trigger] batches[p]@[c]).position ==> o == p && b == c
}

proof fn lemma_gathered_scores(
    batches: Seq<Vec<RoutedRow>>,
    found: Seq<Result<BatchScores, ControlledSearchError>>,
    width: nat,
    n: nat,
    at: int,
)
    requires
        n <= batches.len(),
        batches.len() == found.len(),
        0 <= at < width,
        named_once(batches),
        forall|o: int|
            0 <= o < n ==> crate::cross_lexical::batch_scored(
                (#[trigger] batches[o])@,
                found[o],
                width,
            ),
    ensures
        scores_of(batches, found, width, n).len() == width,
        forall|o: int, b: int|
            0 <= o < n && 0 <= b < batches[o]@.len() && b < found[o]->Ok_0.scores@.len() && (
            #[trigger] batches[o]@[b]).position == at ==> scores_of(batches, found, width, n)[at]
                == match found[o]->Ok_0.scores@[b] {
                Some(score) => score,
                None => Double { bits: 0 },
            },
        (forall|o: int, b: int|
            0 <= o < n && 0 <= b < batches[o]@.len() ==> (#[trigger] batches[o]@[b]).position
                != at) ==> scores_of(batches, found, width, n)[at].bits == 0,
    decreases n,
{
    if n > 0 {
        let less = (n - 1) as nat;
        lemma_gathered_scores(batches, found, width, less, at);
        let earlier = scores_of(batches, found, width, less);
        let batch = batches[n - 1]@;
        if batch.len() > 0 {
            let results = found[n - 1]->Ok_0.scores@;
            let count = answered(batch, results);
            assert(crate::cross_lexical::batch_scored(batches[n - 1]@, found[n - 1], width));
            lemma_scattered_scores(earlier, batch, results, count, at);
            let all = scores_of(batches, found, width, n);
            assert forall|o: int, b: int|
                0 <= o < n && 0 <= b < batches[o]@.len() && b < found[o]->Ok_0.scores@.len() && (
                #[trigger] batches[o]@[b]).position == at implies all[at]
                == match found[o]->Ok_0.scores@[b] {
                Some(score) => score,
                None => Double { bits: 0 },
            } by {
                if o == n - 1 {
                    assert(batch[b].position == at);
                    assert forall|c: int| b < c < count implies (#[trigger] batch[c]).position
                        != at by {
                        assert(batches[n - 1]@[c].position != batches[n - 1]@[b].position);
                    }
                } else {
                    assert forall|c: int| 0 <= c < count implies (#[trigger] batch[c]).position
                        != at by {
                        assert(batches[n - 1]@[c].position != batches[o]@[b].position);
                    }
                }
            }
            if forall|o: int, b: int|
                0 <= o < n && 0 <= b < batches[o]@.len() ==> (#[trigger] batches[o]@[b]).position
                    != at {
                assert forall|c: int| 0 <= c < count implies (#[trigger] batch[c]).position
                    != at by {
                    assert(batches[n - 1]@[c].position != at);
                }
            }
        }
    }
}

/// Lexical scores come back to the rows that they were asked for: each row that was sent
/// has the score that its source gave for it, zero where it gave none, and a row that
/// was not sent has zero.
pub proof fn lemma_scores_come_back_to_their_rows<S: StopSource>(
    missing: &Vec<SearchCandidate>,
    batches: &Vec<Vec<RoutedRow>>,
    found: Vec<Result<BatchScores, ControlledSearchError>>,
    inner: &str,
    poll: &mut StopPoll<S>,
    observer: &mut HybridScoreObserver,
    result: Result<(Vec<Double>, SearchCounters), FusionError>,
    at: int,
)
    requires
        call_ensures(
            cross_score_lexical::<S>,
            (missing, batches, found, inner, poll, observer),
            result,
        ),
        found@.len() == batches@.len(),
        named_once(batches@),
        result is Ok,
        0 <= at < missing@.len(),
    ensures
        ({
            let scores = result->Ok_0.0@;
            &&& scores.len() == missing@.len()
            &&& forall|o: int, b: int|
                0 <= o < batches@.len() && 0 <= b < batches@[o]@.len() && (
                #[trigger] batches@[o]@[b]).position == at ==> (found@[o] matches Ok(given) && (b
                    < given.scores@.len() ==> scores[at] == match given.scores@[b] {
                    Some(score) => score,
                    None => Double { bits: 0 },
                }))
            &&& (forall|o: int, b: int|
                0 <= o < batches@.len() && 0 <= b < batches@[o]@.len() ==> (
                #[trigger] batches@[o]@[b]).position != at) ==> scores[at].bits == 0
        }),
{
    lemma_gathered_scores(batches@, found@, missing@.len(), batches@.len(), at);
    assert forall|o: int, b: int|
        0 <= o < batches@.len() && 0 <= b < batches@[o]@.len() && (
        #[trigger] batches@[o]@[b]).position == at implies (found@[o] is Ok) by {
        assert(crate::cross_lexical::batch_scored(batches@[o]@, found@[o], missing@.len()));
    }
}

proof fn lemma_structured_score_is_the_hits_own(
    segments: Seq<SegmentId>,
    sources: Seq<StructuredLexicalSource>,
    hits: Seq<LexicalHit>,
    identity: PhysicalIdentity,
)
    ensures
        forall|j: int|
            0 <= j < hits.len() && identity_of(segments, sources, #[trigger] hits[j]) == identity
                && (forall|l: int|
                j < l < hits.len() ==> identity_of(segments, sources, #[trigger] hits[l])
                    != identity) ==> structured_score(segments, sources, hits, identity)
                == hits[j].bm25,
        (forall|j: int|
            0 <= j < hits.len() ==> identity_of(segments, sources, #[trigger] hits[j]) != identity)
            ==> structured_score(segments, sources, hits, identity).bits == 0,
    decreases hits.len(),
{
    if hits.len() > 0 {
        let rest = hits.drop_last();
        lemma_structured_score_is_the_hits_own(segments, sources, rest, identity);
        assert forall|j: int| 0 <= j < rest.len() implies #[trigger] rest[j] == hits[j] by {}
        if identity_of(segments, sources, hits.last()) == identity {
            assert(hits[hits.len() - 1] == hits.last());
        } else {
            assert forall|j: int|
                0 <= j < hits.len() && identity_of(segments, sources, #[trigger] hits[j])
                    == identity && (forall|l: int|
                    j < l < hits.len() ==> identity_of(segments, sources, #[trigger] hits[l])
                        != identity) implies structured_score(segments, sources, hits, identity)
                == hits[j].bm25 by {
                assert(rest[j] == hits[j]);
                assert forall|l: int| j < l < rest.len() implies identity_of(
                    segments,
                    sources,
                    #[trigger] rest[l],
                ) != identity by {
                    assert(rest[l] == hits[l]);
                }
            }
            if forall|j: int|
                0 <= j < hits.len() ==> identity_of(segments, sources, #[trigger] hits[j])
                    != identity {
                assert forall|j: int| 0 <= j < rest.len() implies identity_of(
                    segments,
                    sources,
                    #[trigger] rest[j],
                ) != identity by {
                    assert(rest[j] == hits[j]);
                }
            }
        }
    }
}

/// In a structured query a row that lacks a lexical score has that of the structured hit
/// on the very same row and document, and zero where there is none.
pub proof fn lemma_structured_scores_are_those_of_the_same_row<S: StopSource>(
    segments: &Vec<SegmentId>,
    sources: &Vec<StructuredLexicalSource>,
    hits: &Vec<LexicalHit>,
    missing: &Vec<SearchCandidate>,
    poll: &mut StopPoll<S>,
    result: Result<Vec<Double>, FusionError>,
    i: int,
)
    requires
        call_ensures(
            structured_cross_scores::<S>,
            (segments, sources, hits, missing, poll),
            result,
        ),
        result is Ok,
        0 <= i < missing@.len(),
    ensures
        ({
            let scores = result->Ok_0@;
            let identity = identity_of_candidate(missing@[i]);
            &&& scores.len() == missing@.len()
            &&& hits_resolve(segments@, sources@, hits@, hits@.len())
            &&& forall|j: int|
                0 <= j < hits@.len() && identity_of_hit(segments@, sources@, #[trigger] hits@[j])
                    == identity && (forall|l: int|
                    j < l < hits@.len() ==> identity_of_hit(
                        segments@,
                        sources@,
                        #[trigger] hits@[l],
                    ) != identity) ==> scores[i] == hits@[j].bm25
            &&& (forall|j: int|
                0 <= j < hits@.len() ==> identity_of_hit(
                    segments@,
                    sources@,
                    #[trigger] hits@[j],
                ) != identity) ==> scores[i].bits == 0
        }),
{
    let identity = identity_of_candidate(missing@[i]);
    lemma_structured_score_is_the_hits_own(segments@, sources@, hits@, identity);
    assert(crate::round::all_resolve(segments@, sources@, hits@));
    assert forall|j: int| 0 <= j < hits@.len() implies identity_of(
        segments@,
        sources@,
        #[trigger] hits@[j],
    ) == identity_of_hit(segments@, sources@, hits@[j]) by {}
    assert(result->Ok_0@[i] == structured_score(segments@, sources@, hits@, identity));
}

/// The values of a row that lacks a distance are those of its own row in its source: as
/// many as the query has, from where that row begins.
pub proof fn lemma_a_distance_is_read_from_its_own_row(
    segments: &Vec<SegmentFacts>,
    active: &ActiveFacts,
    sources: &Vec<StructuredLexicalSource>,
    segment: Option<usize>,
    doc: GlobalDocId,
    dimension: usize,
    values: Result<usize, QueryError>,
    inner: &str,
    unread: Option<SegmentError>,
    observer: &mut HybridScoreObserver,
    result: Result<CrossFillRow, FusionError>,
)
    requires
        call_ensures(
            cross_fill_row,
            (
                segments,
                active,
                sources,
                segment,
                doc,
                dimension,
                values,
                inner,
                unread,
                observer,
            ),
            result,
        ),
    ensures
        result matches Ok(row) ==> {
            &&& row.segment == segment
            &&& row.start == doc.row * dimension
            &&& row.end == row.start + dimension
            &&& values matches Ok(count) && row.end <= count
        },
        (values matches Ok(count) && doc.row * dimension + dimension > count) ==> result is Err,
        values is Err ==> result is Err,
{
    assert((doc.row + 1) * dimension == doc.row * dimension + dimension) by (nonlinear_arith);
}

/// The source of a hit is the segment that it names.
pub proof fn lemma_a_distance_is_read_from_its_own_source(
    sources: &Vec<StructuredLexicalSource>,
    segment_count: usize,
    doc: GlobalDocId,
    result: Result<Option<usize>, FusionError>,
)
    requires
        call_ensures(cross_fill_source, (sources, segment_count, doc), result),
    ensures
        result matches Ok(segment) ==> doc.segment < sources@.len()
            && match sources@[doc.segment as int] {
            StructuredLexicalSource::Active => segment is None,
            StructuredLexicalSource::Sealed(ordinal) => segment == Some(ordinal) && ordinal
                < segment_count,
        },
        doc.segment < sources@.len() && (
        sources@[doc.segment as int] matches StructuredLexicalSource::Sealed(ordinal) ==> ordinal
            < segment_count) ==> result is Ok,
{
}

/// A score is read from the cache under its own key: what is read was kept under that
/// very identity and policy, and nothing is read only where nothing was.
pub proof fn lemma_a_cached_score_is_that_of_its_key(
    cache: &CrossScoreCache,
    key: CrossScoreKey,
    score: Option<u64>,
)
    requires
        call_ensures(CrossScoreCache::get, (cache, key), score),
    ensures
        ({
            let kept = cache.entries.items@.take(cache.sorted as int);
            match score {
                Some(bits) => exists|c: int|
                    0 <= c < kept.len() && (#[trigger] kept[c]).key == key && kept[c].bits == bits,
                None => forall|c: int| 0 <= c < kept.len() ==> (#[trigger] kept[c]).key != key,
            }
        }),
{
}

/// A score that is inserted stands behind the others, under its key, and is not read
/// before the round ends.
pub proof fn lemma_an_inserted_score_waits_for_the_round(
    cache: &mut CrossScoreCache,
    key: CrossScoreKey,
    bits: u64,
)
    requires
        call_ensures(CrossScoreCache::insert, (cache, key, bits), ()),
    ensures
        ({
            let (before, after) = (old(cache).entries.items@, final(cache).entries.items@);
            &&& after.len() == before.len() + 1
            &&& after.last().key == key && after.last().bits == bits
            &&& forall|c: int| 0 <= c < before.len() ==> #[trigger] after[c] == before[c]
            &&& final(cache).sorted == old(cache).sorted
            &&& final(cache).epoch == old(cache).epoch
        }),
{
}

/// Behind a round every score that was inserted is read, under its own key, and every
/// earlier one too; a key with two scores is refused.
pub proof fn lemma_a_round_makes_its_scores_readable(
    cache: &mut CrossScoreCache,
    result: Result<(), FusionError>,
    c: int,
)
    requires
        call_ensures(CrossScoreCache::finish_round, (cache,), result),
        0 <= c < old(cache).entries.items@.len(),
    ensures
        result is Ok ==> final(cache).entries.items@.take(final(cache).sorted as int).contains(
            old(cache).entries.items@[c],
        ),
        result is Ok <==> forall|a: int, b: int|
            0 <= a < b < old(cache).entries.items@.len() ==> (#[trigger] old(
                cache,
            ).entries.items@[a]).key != (#[trigger] old(cache).entries.items@[b]).key,
        final(cache).entries.items@.len() == old(cache).entries.items@.len(),
        final(cache).epoch == old(cache).epoch,
{
    let before = old(cache).entries.items@;
    crate::rank::lemma_ranked_is_permutation(before);
    crate::rank::lemma_permutation_keeps_members(crate::rank::ranked(before), before);
    assert(before.contains(before[c]));
}

/// Rows that lack a score are routed wherever each is alive and pinned for its own
/// document in every source that stands for its segment, and nothing stopped the query.
pub proof fn lemma_pinned_rows_are_routed<S: StopSource>(
    segments: &Vec<SegmentFacts>,
    active: &ActiveFacts,
    sources: &Vec<StructuredLexicalSource>,
    missing: &Vec<SearchCandidate>,
    poll: &mut StopPoll<S>,
    result: Result<Vec<Vec<RoutedRow>>, FusionError>,
)
    requires
        call_ensures(
            route_missing::<S>,
            (segments, active, sources, missing, None, poll),
            result,
        ),
        sources@.len() <= u32::MAX,
        forall|at: int, o: int|
            0 <= at < missing@.len() && 0 <= o < sources@.len() && stands_for_source(
                segments@,
                #[trigger] sources@[o],
                (#[trigger] missing@[at]).row_id.source,
            ) ==> pins_alive(
                segments@,
                *active,
                sources@[o],
                missing@[at].row_id.local_row,
                missing@[at].document,
            ),
        forall|i: int|
            0 <= i < final(poll).answers().len() ==> (#[trigger] final(poll).answers()[i]) is Ok,
    ensures
        result is Ok,
{
    if result is Err {
        let after = final(poll).answers();
        if exists|at: int|
            #[trigger] crate::cross_lexical::first_refused(
                segments@,
                *active,
                sources@,
                missing@,
                None,
                at,
            ) {
            let at = choose|at: int|
                #[trigger] crate::cross_lexical::first_refused(
                    segments@,
                    *active,
                    sources@,
                    missing@,
                    None,
                    at,
                );
            let candidate = missing@[at];
            lemma_ordinal_is_the_first(segments@, sources@, candidate.row_id.source, 0);
            if let Some(o) = crate::cross_lexical::ordinal_of(
                segments@,
                sources@,
                candidate.row_id.source,
                0,
            ) {
                assert(stands_for_source(segments@, sources@[o], missing@[at].row_id.source));
                assert(pins_alive(
                    segments@,
                    *active,
                    sources@[o],
                    candidate.row_id.local_row,
                    candidate.document,
                ));
            }
        } else if after.len() > 0 {
            assert(after[after.len() - 1] == after.last());
        }
    }
}

/// The documents that were evaluated for each batch that was sent.
pub open spec fn evaluated(
    batches: Seq<Vec<RoutedRow>>,
    found: Seq<Result<BatchScores, ControlledSearchError>>,
) -> Seq<u64> {
    Seq::new(
        batches.len(),
        |o: int|
            if batches[o]@.len() > 0 {
                found[o]->Ok_0.counters.docs_evaluated
            } else {
                0
            },
    )
}

proof fn lemma_work_is_summed(
    batches: Seq<Vec<RoutedRow>>,
    found: Seq<Result<BatchScores, ControlledSearchError>>,
    n: nat,
)
    requires
        n <= batches.len(),
    ensures
        sum_of(evaluated(batches, found).take(n as int)) >= 0,
        sum_of(evaluated(batches, found).take(n as int)) <= u64::MAX
            ==> crate::cross_lexical::work_of(batches, found, n).docs_evaluated == sum_of(
            evaluated(batches, found).take(n as int),
        ),
    decreases n,
{
    if n > 0 {
        lemma_work_is_summed(batches, found, (n - 1) as nat);
        assert(evaluated(batches, found).take(n as int).drop_last() =~= evaluated(
            batches,
            found,
        ).take(n - 1));
    }
}

/// The work of crossed scores is that of the batches that were sent.
pub proof fn lemma_crossed_work_is_that_of_the_batches<S: StopSource>(
    missing: &Vec<SearchCandidate>,
    batches: &Vec<Vec<RoutedRow>>,
    found: Vec<Result<BatchScores, ControlledSearchError>>,
    inner: &str,
    poll: &mut StopPoll<S>,
    observer: &mut HybridScoreObserver,
    result: Result<(Vec<Double>, SearchCounters), FusionError>,
)
    requires
        call_ensures(
            cross_score_lexical::<S>,
            (missing, batches, found, inner, poll, observer),
            result,
        ),
        result is Ok,
        sum_of(evaluated(batches@, found@)) <= u64::MAX,
    ensures
        result->Ok_0.1.docs_evaluated == sum_of(evaluated(batches@, found@)),
{
    lemma_work_is_summed(batches@, found@, batches@.len());
    assert(evaluated(batches@, found@).take(batches@.len() as int) =~= evaluated(
        batches@,
        found@,
    ));
}

} // verus!
