//! Lexical scores of the vector hits that a hybrid window lacks.

use crate::candidates::accumulate_search_counters;
use crate::candidates::LexicalHit;
use crate::candidates::SearchCandidate;
use crate::candidates::SearchCounters;
use crate::candidates::StructuredLexicalSource;
use crate::corpus::alive_at;
use crate::corpus::is_alive;
use crate::corpus::take_unread;
use crate::corpus::unread_at;
use crate::corpus::ActiveFacts;
use crate::corpus::SegmentFacts;
use crate::corpus::UnreadDocument;
use crate::error::QueryError;
use crate::error::SegmentError;
use crate::fusion::FusionError;
use crate::fusion::FusionLeg;
use crate::fusion::LegFailureKind;
use crate::hybrid::is_overflow;
use crate::hybrid::overflow;
use crate::identity::identity_of;
use crate::identity::is_lexical_invariant;
use crate::identity::lexical_identity;
use crate::identity::lexical_invariant;
use crate::identity::source_of;
use crate::identity::PhysicalIdentity;
use crate::ids::GlobalDocId;
use crate::ids::RowSource;
use crate::ids::SegmentId;
use crate::lexical::document_error_text;
use crate::lexical::hit_document;
use crate::lexical::is_lexical_leg;
use crate::lexical::map_fusion_controlled_lexical_error;
use crate::lexical::map_term_leg_document_error;
use crate::lexical::structured_lexical_document;
use crate::lexical::ControlledSearchError;
use crate::lexical::LexicalDocumentError;
use crate::observations::saw_lexical_rows;
use crate::observations::HybridScoreObserver;
use crate::poll::check_leg;
use crate::poll::halted;
use crate::poll::leg_stop;
use crate::poll::lemma_no_check;
use crate::poll::lemma_one_more_check;
use crate::poll::passed;
use crate::poll::StopPoll;
use crate::poll::StopSource;
use crate::round::all_resolve;
use crate::round::candidate_identity;
use crate::round::unresolved;
use crate::round::unresolved_at;
use crate::score::Double;
use vstd::prelude::*;

verus! {

/// The score of an identity among complete structured hits: that of its last
/// hit, or zero where it has none.
pub open spec fn structured_score(
    segments: Seq<SegmentId>,
    sources: Seq<StructuredLexicalSource>,
    hits: Seq<LexicalHit>,
    identity: PhysicalIdentity,
) -> Double
    decreases hits.len(),
{
    if hits.len() == 0 {
        Double { bits: 0 }
    } else if identity_of(segments, sources, hits.last()) == identity {
        hits.last().bm25
    } else {
        structured_score(segments, sources, hits.drop_last(), identity)
    }
}

fn score_among(
    ids: &Vec<PhysicalIdentity>,
    hits: &Vec<LexicalHit>,
    identity: PhysicalIdentity,
    Ghost(segments): Ghost<Seq<SegmentId>>,
    Ghost(sources): Ghost<Seq<StructuredLexicalSource>>,
) -> (score: Double)
    requires
        ids@.len() == hits@.len(),
        forall|i: int|
            0 <= i < hits@.len() ==> #[trigger] ids@[i] == identity_of(segments, sources, hits@[i]),
    ensures
        score == structured_score(segments, sources, hits@, identity),
{
    let mut left: usize = hits.len();
    assert(hits@.take(left as int) == hits@);
    while left > 0
        invariant
            left <= hits@.len(),
            ids@.len() == hits@.len(),
            forall|i: int|
                0 <= i < hits@.len() ==> #[trigger] ids@[i] == identity_of(
                    segments,
                    sources,
                    hits@[i],
                ),
            structured_score(segments, sources, hits@, identity) == structured_score(
                segments,
                sources,
                hits@.take(left as int),
                identity,
            ),
        decreases left,
    {
        assert(hits@.take(left as int).drop_last() == hits@.take(left - 1));
        assert(hits@.take(left as int).last() == hits@[left - 1]);
        left = left - 1;
        if ids[left] == identity {
            return hits[left].bm25;
        }
    }
    assert(hits@.take(0).len() == 0);
    Double { bits: 0 }
}

/// Cross-scores of a structured query: its producer returns every member, so a
/// candidate without a hit is shown not to match. A stop is checked at the start
/// and before each candidate.
pub fn structured_cross_scores<S: StopSource>(
    segments: &Vec<SegmentId>,
    sources: &Vec<StructuredLexicalSource>,
    hits: &Vec<LexicalHit>,
    missing: &Vec<SearchCandidate>,
    poll: &mut StopPoll<S>,
) -> (result: Result<Vec<Double>, FusionError>)
    requires
        old(poll).wf(),
    ensures
        final(poll).follows(*old(poll)),
        final(poll).wf(),
        old(poll).found matches Some(stop) ==> result == Err::<Vec<Double>, FusionError>(
            leg_stop(stop),
        ),
        match result {
            Ok(scores) => {
                &&& passed(old(poll).answers(), final(poll).answers(), 1 + missing@.len())
                &&& all_resolve(segments@, sources@, hits@)
                &&& scores@.len() == missing@.len()
                &&& forall|i: int|
                    0 <= i < missing@.len() ==> #[trigger] scores@[i] == structured_score(
                        segments@,
                        sources@,
                        hits@,
                        candidate_identity(missing@[i]),
                    )
            },
            Err(error) => {
                let (before, after) = (old(poll).answers(), final(poll).answers());
                ||| {
                    &&& halted(before, after, 1 + missing@.len()) matches Some(stop) && error
                        == leg_stop(stop)
                    &&& after.len() > before.len() + 1 ==> all_resolve(segments@, sources@, hits@)
                }
                ||| unresolved(segments@, sources@, hits@, error) && passed(before, after, 1)
            },
        },
{
    let ghost before = poll.answers();
    let checked = check_leg(poll);
    proof {
        lemma_no_check(before);
        lemma_one_more_check(before, before, poll.answers(), 0, poll.answers().last());
    }
    checked?;
    let mut ids: Vec<PhysicalIdentity> = Vec::with_capacity(hits.len());
    let mut at: usize = 0;
    while at < hits.len()
        invariant
            at <= hits@.len(),
            ids@.len() == at,
            before == old(poll).answers(),
            poll.wf(),
            poll.follows(*old(poll)),
            old(poll).found is None,
            passed(before, poll.answers(), 1),
            forall|i: int|
                0 <= i < at ==> source_of(segments@, sources@, (#[trigger] hits@[i]).doc.segment)
                    is Some,
            forall|i: int|
                0 <= i < at ==> #[trigger] ids@[i] == identity_of(segments@, sources@, hits@[i]),
        decreases hits.len() - at,
    {
        match lexical_identity(segments, sources, &hits[at]) {
            Ok(identity) => {
                ids.push(identity);
            },
            Err(error) => {
                assert(unresolved_at(segments@, sources@, hits@, at as int, error));
                return Err(error);
            },
        }
        at = at + 1;
    }
    let mut scores: Vec<Double> = Vec::with_capacity(missing.len());
    let mut candidate: usize = 0;
    while candidate < missing.len()
        invariant
            candidate <= missing@.len(),
            scores@.len() == candidate,
            ids@.len() == hits@.len(),
            all_resolve(segments@, sources@, hits@),
            before == old(poll).answers(),
            poll.wf(),
            poll.follows(*old(poll)),
            old(poll).found is None,
            passed(before, poll.answers(), (1 + candidate) as nat),
            forall|i: int|
                0 <= i < hits@.len() ==> #[trigger] ids@[i] == identity_of(
                    segments@,
                    sources@,
                    hits@[i],
                ),
            forall|i: int|
                0 <= i < candidate ==> #[trigger] scores@[i] == structured_score(
                    segments@,
                    sources@,
                    hits@,
                    candidate_identity(missing@[i]),
                ),
        decreases missing.len() - candidate,
    {
        let ghost between = poll.answers();
        let checked = check_leg(poll);
        proof {
            lemma_one_more_check(
                before,
                between,
                poll.answers(),
                (1 + candidate) as nat,
                poll.answers().last(),
            );
        }
        checked?;
        let identity = PhysicalIdentity {
            row: missing[candidate].row_id,
            document: missing[candidate].document,
        };
        scores.push(score_among(&ids, hits, identity, Ghost(segments@), Ghost(sources@)));
        candidate = candidate + 1;
    }
    Ok(scores)
}

/// One candidate that is sent to a lexical source: its row and its place among
/// the candidates.
#[derive(Clone, Copy, Debug, PartialEq, Eq, Structural)]
pub struct RoutedRow {
    pub row: u32,
    pub position: usize,
}

/// Whether a lexical source holds the rows of `source`.
pub open spec fn source_matches(
    segments: Seq<SegmentFacts>,
    lexical: StructuredLexicalSource,
    source: RowSource,
) -> bool {
    match lexical {
        StructuredLexicalSource::Active => source == RowSource::Active,
        StructuredLexicalSource::Sealed(ordinal) => ordinal < segments.len() && source
            == RowSource::Sealed(segments[ordinal as int].id),
    }
}

/// The first lexical source from `at` on that holds the rows of `source`.
pub open spec fn ordinal_of(
    segments: Seq<SegmentFacts>,
    sources: Seq<StructuredLexicalSource>,
    source: RowSource,
    at: nat,
) -> Option<int>
    decreases sources.len() - at,
{
    if at >= sources.len() {
        None
    } else if source_matches(segments, sources[at as int], source) {
        Some(at as int)
    } else {
        ordinal_of(segments, sources, source, at + 1)
    }
}

/// Whether a source's row is alive.
pub open spec fn source_alive(
    segments: Seq<SegmentFacts>,
    active: ActiveFacts,
    lexical: StructuredLexicalSource,
    row: u32,
) -> bool {
    match lexical {
        StructuredLexicalSource::Active => alive_at(active.alive@, row as nat),
        StructuredLexicalSource::Sealed(ordinal) => ordinal < segments.len() && alive_at(
            segments[ordinal as int].alive@,
            row as nat,
        ),
    }
}

/// Where one candidate goes: to no source, to a source, or nowhere because its
/// source cannot be addressed, its document cannot be read, or it is not the row
/// that is pinned.
pub enum Route {
    NoText,
    To(usize),
    TooManySources,
    Unread(LexicalDocumentError),
    NotPinned,
}

/// The route of one candidate; `unread` says why its document could not be read,
/// where it could not.
pub open spec fn route_of(
    segments: Seq<SegmentFacts>,
    active: ActiveFacts,
    sources: Seq<StructuredLexicalSource>,
    candidate: SearchCandidate,
    unread: Option<SegmentError>,
) -> Route {
    match ordinal_of(segments, sources, candidate.row_id.source, 0) {
        None => Route::NoText,
        Some(ordinal) => {
            let doc = GlobalDocId { segment: ordinal as u32, row: candidate.row_id.local_row };
            if ordinal > u32::MAX {
                Route::TooManySources
            } else {
                match hit_document(segments, active, sources, doc, false, unread) {
                    Err(error) => Route::Unread(error),
                    Ok(document) => if document == candidate.document && source_alive(
                        segments,
                        active,
                        sources[ordinal],
                        candidate.row_id.local_row,
                    ) {
                        Route::To(ordinal as usize)
                    } else {
                        Route::NotPinned
                    },
                }
            }
        },
    }
}

/// Whether a route leads to no score at all.
pub open spec fn refuses(route: Route) -> bool {
    route is TooManySources || route is Unread || route is NotPinned
}

/// The failure that stands for a refused route.
pub open spec fn refused_as(route: Route, error: FusionError) -> bool {
    match route {
        Route::TooManySources => is_overflow(error),
        Route::Unread(reason) => is_lexical_leg(
            error,
            if reason is Segment {
                LegFailureKind::Segment
            } else {
                LegFailureKind::Invariant
            },
            document_error_text(reason),
        ),
        Route::NotPinned => is_lexical_invariant(
            error,
            "hybrid candidate does not match the pinned live row and revision"@,
        ),
        _ => false,
    }
}

/// The first candidate that is refused is at `at`.
pub open spec fn first_refused(
    segments: Seq<SegmentFacts>,
    active: ActiveFacts,
    sources: Seq<StructuredLexicalSource>,
    missing: Seq<SearchCandidate>,
    unread: Option<UnreadDocument>,
    at: int,
) -> bool {
    &&& 0 <= at < missing.len()
    &&& refuses(route_of(segments, active, sources, missing[at], unread_at(unread, at)))
    &&& forall|i: int|
        0 <= i < at ==> !refuses(
            route_of(segments, active, sources, #[trigger] missing[i], unread_at(unread, i)),
        )
}

fn find_source(
    segments: &Vec<SegmentFacts>,
    sources: &Vec<StructuredLexicalSource>,
    source: RowSource,
) -> (result: Option<usize>)
    ensures
        match result {
            Some(at) => at < sources@.len() && ordinal_of(segments@, sources@, source, 0) == Some(
                at as int,
            ) && source_matches(segments@, sources@[at as int], source),
            None => ordinal_of(segments@, sources@, source, 0) is None,
        },
{
    let mut at: usize = 0;
    while at < sources.len()
        invariant
            at <= sources@.len(),
            ordinal_of(segments@, sources@, source, 0) == ordinal_of(
                segments@,
                sources@,
                source,
                at as nat,
            ),
        decreases sources.len() - at,
    {
        let here = match sources[at] {
            StructuredLexicalSource::Active => source == RowSource::Active,
            StructuredLexicalSource::Sealed(ordinal) => ordinal < segments.len() && source
                == RowSource::Sealed(segments[ordinal].id),
        };
        if here {
            return Some(at);
        }
        at = at + 1;
    }
    None
}

fn route_candidate(
    segments: &Vec<SegmentFacts>,
    active: &ActiveFacts,
    sources: &Vec<StructuredLexicalSource>,
    candidate: SearchCandidate,
    unread: Option<SegmentError>,
) -> (result: Result<Option<usize>, FusionError>)
    ensures
        ({
            let route = route_of(segments@, *active, sources@, candidate, unread);
            match result {
                Ok(None) => route == Route::NoText,
                Ok(Some(ordinal)) => ordinal < sources@.len() && route == Route::To(ordinal),
                Err(error) => refuses(route) && refused_as(route, error),
            }
        }),
{
    let ordinal: usize = match find_source(segments, sources, candidate.row_id.source) {
        None => {
            return Ok(None);
        },
        Some(ordinal) => ordinal,
    };
    if ordinal > u32::MAX as usize {
        return Err(overflow());
    }
    let row: u32 = candidate.row_id.local_row;
    let doc = GlobalDocId { segment: ordinal as u32, row };
    let document = match structured_lexical_document(
        segments,
        active,
        sources,
        doc,
        false,
        unread,
    ) {
        Ok(document) => document,
        Err(error) => {
            return Err(map_term_leg_document_error(error));
        },
    };
    let alive = match sources[ordinal] {
        StructuredLexicalSource::Active => is_alive(&active.alive, row),
        StructuredLexicalSource::Sealed(slot) => slot < segments.len() && is_alive(
            &segments[slot].alive,
            row,
        ),
    };
    if document != candidate.document || !alive {
        return Err(
            lexical_invariant("hybrid candidate does not match the pinned live row and revision"),
        );
    }
    Ok(Some(ordinal))
}

/// The routed rows of one source among the first `n` candidates, in order.
pub open spec fn batch_of(
    segments: Seq<SegmentFacts>,
    active: ActiveFacts,
    sources: Seq<StructuredLexicalSource>,
    missing: Seq<SearchCandidate>,
    unread: Option<UnreadDocument>,
    ordinal: usize,
    n: nat,
) -> Seq<RoutedRow>
    decreases n,
{
    if n == 0 {
        Seq::empty()
    } else {
        let earlier = batch_of(
            segments,
            active,
            sources,
            missing,
            unread,
            ordinal,
            (n - 1) as nat,
        );
        if route_of(segments, active, sources, missing[n - 1], unread_at(unread, n - 1))
            == Route::To(ordinal) {
            earlier.push(
                RoutedRow { row: missing[n - 1].row_id.local_row, position: (n - 1) as usize },
            )
        } else {
            earlier
        }
    }
}

/// Whether none of the first `n` candidates is refused.
pub open spec fn routed_up_to(
    segments: Seq<SegmentFacts>,
    active: ActiveFacts,
    sources: Seq<StructuredLexicalSource>,
    missing: Seq<SearchCandidate>,
    unread: Option<UnreadDocument>,
    n: int,
) -> bool {
    forall|i: int|
        0 <= i < n ==> !refuses(
            route_of(segments, active, sources, #[trigger] missing[i], unread_at(unread, i)),
        )
}

/// Routes the candidates of a term query to the sources that score them: every
/// candidate must be the live row and revision that is pinned; a source without
/// a lexical index contributes nothing. A stop is checked at the start and
/// before each candidate; `unread` is the first document that could not be read,
/// where there is one.
pub fn route_missing<S: StopSource>(
    segments: &Vec<SegmentFacts>,
    active: &ActiveFacts,
    sources: &Vec<StructuredLexicalSource>,
    missing: &Vec<SearchCandidate>,
    unread: Option<UnreadDocument>,
    poll: &mut StopPoll<S>,
) -> (result: Result<Vec<Vec<RoutedRow>>, FusionError>)
    requires
        old(poll).wf(),
    ensures
        final(poll).follows(*old(poll)),
        final(poll).wf(),
        old(poll).found matches Some(stop) ==> result == Err::<
            Vec<Vec<RoutedRow>>,
            FusionError,
        >(leg_stop(stop)),
        match result {
            Ok(batches) => {
                &&& passed(old(poll).answers(), final(poll).answers(), 1 + missing@.len())
                &&& routed_up_to(
                    segments@,
                    *active,
                    sources@,
                    missing@,
                    unread,
                    missing@.len() as int,
                )
                &&& batches@.len() == sources@.len()
                &&& forall|o: int|
                    0 <= o < sources@.len() ==> (#[trigger] batches@[o])@ == batch_of(
                        segments@,
                        *active,
                        sources@,
                        missing@,
                        unread,
                        o as usize,
                        missing@.len(),
                    )
            },
            Err(error) => {
                let (before, after) = (old(poll).answers(), final(poll).answers());
                ||| {
                    &&& halted(before, after, 1 + missing@.len()) matches Some(stop) && error
                        == leg_stop(stop)
                    &&& routed_up_to(
                        segments@,
                        *active,
                        sources@,
                        missing@,
                        unread,
                        after.len() - before.len() - 2,
                    )
                }
                ||| exists|at: int|
                    #[trigger] first_refused(
                        segments@,
                        *active,
                        sources@,
                        missing@,
                        unread,
                        at,
                    ) && refused_as(
                        route_of(
                            segments@,
                            *active,
                            sources@,
                            missing@[at],
                            unread_at(unread, at),
                        ),
                        error,
                    ) && passed(before, after, (at + 2) as nat)
            },
        },
{
    let ghost before = poll.answers();
    let checked = check_leg(poll);
    proof {
        lemma_no_check(before);
        lemma_one_more_check(before, before, poll.answers(), 0, poll.answers().last());
    }
    checked?;
    let mut batches: Vec<Vec<RoutedRow>> = Vec::with_capacity(sources.len());
    let mut filled: usize = 0;
    while filled < sources.len()
        invariant
            filled <= sources@.len(),
            batches@.len() == filled,
            forall|o: int| 0 <= o < filled ==> (#[trigger] batches@[o])@ == Seq::<RoutedRow>::empty(),
        decreases sources.len() - filled,
    {
        batches.push(Vec::new());
        filled = filled + 1;
    }
    let ghost whole = unread;
    let mut pending = unread;
    let mut at: usize = 0;
    while at < missing.len()
        invariant
            at <= missing@.len(),
            sources@.len() == filled,
            whole == unread,
            before == old(poll).answers(),
            poll.wf(),
            poll.follows(*old(poll)),
            old(poll).found is None,
            passed(before, poll.answers(), (1 + at) as nat),
            forall|i: int| i >= at ==> unread_at(pending, i) == #[trigger] unread_at(whole, i),
            batches@.len() == sources@.len(),
            routed_up_to(segments@, *active, sources@, missing@, whole, at as int),
            forall|o: int|
                0 <= o < sources@.len() ==> (#[trigger] batches@[o])@ == batch_of(
                    segments@,
                    *active,
                    sources@,
                    missing@,
                    whole,
                    o as usize,
                    at as nat,
                ),
        decreases missing.len() - at,
    {
        let ghost between = poll.answers();
        let checked = check_leg(poll);
        proof {
            lemma_one_more_check(
                before,
                between,
                poll.answers(),
                (1 + at) as nat,
                poll.answers().last(),
            );
        }
        checked?;
        let candidate = missing[at];
        let ghost before = batches@;
        assert(unread_at(pending, at as int) == unread_at(whole, at as int));
        let fault = take_unread(&mut pending, at);
        match route_candidate(segments, active, sources, candidate, fault) {
            Err(error) => {
                assert(first_refused(
                    segments@,
                    *active,
                    sources@,
                    missing@,
                    whole,
                    at as int,
                ));
                return Err(error);
            },
            Ok(None) => {},
            Ok(Some(ordinal)) => {
                let mut batch: Vec<RoutedRow> = Vec::new();
                std::mem::swap(&mut batch, &mut batches[ordinal]);
                batch.push(RoutedRow { row: candidate.row_id.local_row, position: at });
                let ghost grown = batch;
                std::mem::swap(&mut batch, &mut batches[ordinal]);
                assert(batches@ == before.update(ordinal as int, grown));
            },
        }
        assert forall|o: int| 0 <= o < sources@.len() implies (#[trigger] batches@[o])@ == batch_of(
            segments@,
            *active,
            sources@,
            missing@,
            whole,
            o as usize,
            (at + 1) as nat,
        ) by {
            assert(before[o]@ == batch_of(
                segments@,
                *active,
                sources@,
                missing@,
                whole,
                o as usize,
                at as nat,
            ));
        }
        at = at + 1;
    }
    Ok(batches)
}

/// What the lexical engine found for one batch: a score of each row, where it
/// matches, and the work it took.
#[derive(Debug)]
pub struct BatchScores {
    pub scores: Vec<Option<Double>>,
    pub counters: SearchCounters,
}

/// Rows of a batch that have a result.
pub open spec fn answered(batch: Seq<RoutedRow>, results: Seq<Option<Double>>) -> nat {
    if batch.len() <= results.len() {
        batch.len()
    } else {
        results.len()
    }
}

/// The scores after the first `n` rows of one batch are written.
pub open spec fn scattered(
    scores: Seq<Double>,
    batch: Seq<RoutedRow>,
    results: Seq<Option<Double>>,
    n: nat,
) -> Seq<Double>
    decreases n,
{
    if n == 0 {
        scores
    } else {
        scattered(scores, batch, results, (n - 1) as nat).update(
            batch[n - 1].position as int,
            match results[n - 1] {
                Some(score) => score,
                None => Double { bits: 0 },
            },
        )
    }
}

/// Whether every answered row of a batch has its place among `width` scores.
pub open spec fn places_fit(
    batch: Seq<RoutedRow>,
    results: Seq<Option<Double>>,
    width: nat,
) -> bool {
    forall|i: int|
        0 <= i < answered(batch, results) ==> (#[trigger] batch[i]).position < width
}

/// Writes the scores of one batch to the places that the candidates had; a row
/// without a score counts as zero.
pub fn scatter_scores(
    scores: &mut Vec<Double>,
    batch: &Vec<RoutedRow>,
    results: &Vec<Option<Double>>,
) -> (result: Result<(), FusionError>)
    ensures
        final(scores)@.len() == old(scores)@.len(),
        match result {
            Ok(_) => {
                &&& places_fit(batch@, results@, old(scores)@.len())
                &&& final(scores)@ == scattered(
                    old(scores)@,
                    batch@,
                    results@,
                    answered(batch@, results@),
                )
            },
            Err(error) => {
                &&& is_lexical_invariant(error, "hybrid candidate routing position is absent"@)
                &&& !places_fit(batch@, results@, old(scores)@.len())
            },
        },
{
    let mut at: usize = 0;
    while at < batch.len() && at < results.len()
        invariant
            at <= batch@.len(),
            at <= results@.len(),
            scores@.len() == old(scores)@.len(),
            forall|i: int|
                0 <= i < at ==> (#[trigger] batch@[i]).position < old(scores)@.len(),
            scores@ == scattered(old(scores)@, batch@, results@, at as nat),
        decreases batch.len() - at,
    {
        let position: usize = batch[at].position;
        if position >= scores.len() {
            assert(batch@[at as int].position >= old(scores)@.len());
            return Err(lexical_invariant("hybrid candidate routing position is absent"));
        }
        let score = match results[at] {
            Some(value) => value,
            None => Double { bits: 0 },
        };
        scores.set(position, score);
        at = at + 1;
    }
    Ok(())
}

/// Whether a batch was scored and its scores have their places; an empty batch
/// is passed over.
pub open spec fn batch_scored(
    batch: Seq<RoutedRow>,
    found: Result<BatchScores, ControlledSearchError>,
    width: nat,
) -> bool {
    batch.len() == 0 || (found is Ok && places_fit(batch, found->Ok_0.scores@, width))
}

/// The first batch that was not scored is at `at`.
pub open spec fn first_unscored(
    batches: Seq<Vec<RoutedRow>>,
    found: Seq<Result<BatchScores, ControlledSearchError>>,
    width: nat,
    at: int,
) -> bool {
    &&& 0 <= at < batches.len()
    &&& !batch_scored(batches[at]@, found[at], width)
    &&& forall|i: int| 0 <= i < at ==> batch_scored(#[trigger] batches[i]@, found[i], width)
}

/// The failure that stands for a batch that was not scored.
pub open spec fn unscored_as(
    found: Result<BatchScores, ControlledSearchError>,
    error: FusionError,
    inner: Seq<char>,
) -> bool {
    match found {
        Err(ControlledSearchError::Index(text)) => is_lexical_leg(
            error,
            LegFailureKind::Lexical,
            text@,
        ),
        Err(ControlledSearchError::Control(scan)) => error.stands_for(
            QueryError::Scan(scan),
            FusionLeg::Vector,
            inner,
        ),
        Ok(_) => is_lexical_invariant(error, "hybrid candidate routing position is absent"@),
    }
}

/// No score at all.
pub open spec fn zeros(width: nat) -> Seq<Double> {
    Seq::new(width, |i: int| Double { bits: 0 })
}

/// The scores behind the first `n` batches.
pub open spec fn scores_of(
    batches: Seq<Vec<RoutedRow>>,
    found: Seq<Result<BatchScores, ControlledSearchError>>,
    width: nat,
    n: nat,
) -> Seq<Double>
    decreases n,
{
    if n == 0 {
        zeros(width)
    } else {
        let earlier = scores_of(batches, found, width, (n - 1) as nat);
        if batches[n - 1]@.len() == 0 {
            earlier
        } else {
            let results = found[n - 1]->Ok_0.scores@;
            scattered(earlier, batches[n - 1]@, results, answered(batches[n - 1]@, results))
        }
    }
}

/// The work behind the first `n` batches.
pub open spec fn work_of(
    batches: Seq<Vec<RoutedRow>>,
    found: Seq<Result<BatchScores, ControlledSearchError>>,
    n: nat,
) -> SearchCounters
    decreases n,
{
    if n == 0 {
        SearchCounters::spec_zero()
    } else {
        let earlier = work_of(batches, found, (n - 1) as nat);
        if batches[n - 1]@.len() == 0 {
            earlier
        } else {
            earlier.sum(found[n - 1]->Ok_0.counters)
        }
    }
}

/// Whether no candidate was routed anywhere.
pub open spec fn nothing_routed(batches: Seq<Vec<RoutedRow>>) -> bool {
    forall|i: int| 0 <= i < batches.len() ==> (#[trigger] batches[i])@.len() == 0
}

fn routes_nothing(batches: &Vec<Vec<RoutedRow>>) -> (result: bool)
    ensures
        result == nothing_routed(batches@),
{
    let mut at: usize = 0;
    while at < batches.len()
        invariant
            at <= batches@.len(),
            forall|i: int| 0 <= i < at ==> (#[trigger] batches@[i])@.len() == 0,
        decreases batches.len() - at,
    {
        if batches[at].len() > 0 {
            assert(batches@[at as int]@.len() > 0);
            return false;
        }
        at = at + 1;
    }
    true
}

proof fn lemma_nothing_routed_scores_nothing(
    batches: Seq<Vec<RoutedRow>>,
    found: Seq<Result<BatchScores, ControlledSearchError>>,
    width: nat,
    n: nat,
)
    requires
        nothing_routed(batches),
        n <= batches.len(),
    ensures
        scores_of(batches, found, width, n) == zeros(width),
        work_of(batches, found, n) == SearchCounters::spec_zero(),
    decreases n,
{
    if n > 0 {
        lemma_nothing_routed_scores_nothing(batches, found, width, (n - 1) as nat);
        assert(batches[n - 1]@.len() == 0);
    }
}

fn zero_scores(width: usize) -> (scores: Vec<Double>)
    ensures
        scores@ == zeros(width as nat),
{
    let mut scores: Vec<Double> = Vec::with_capacity(width);
    let mut at: usize = 0;
    while at < width
        invariant
            at <= width,
            scores@.len() == at,
            forall|i: int| 0 <= i < at ==> #[trigger] scores@[i] == (Double { bits: 0 }),
        decreases width - at,
    {
        scores.push(Double { bits: 0 });
        at = at + 1;
    }
    scores
}

/// Candidates of the first `n` rows of one batch, in its order.
pub open spec fn sent_of_batch(
    missing: Seq<SearchCandidate>,
    batch: Seq<RoutedRow>,
    n: nat,
) -> Seq<PhysicalIdentity>
    decreases n,
{
    if n == 0 {
        Seq::empty()
    } else {
        let earlier = sent_of_batch(missing, batch, (n - 1) as nat);
        if batch[n - 1].position < missing.len() {
            earlier.push(candidate_identity(missing[batch[n - 1].position as int]))
        } else {
            earlier
        }
    }
}

/// Candidates that the first `n` batches send to the lexical scorer.
pub open spec fn sent_rows(
    missing: Seq<SearchCandidate>,
    batches: Seq<Vec<RoutedRow>>,
    n: nat,
) -> Seq<PhysicalIdentity>
    decreases n,
{
    if n == 0 {
        Seq::empty()
    } else {
        sent_rows(missing, batches, (n - 1) as nat) + sent_of_batch(
            missing,
            batches[n - 1]@,
            batches[n - 1]@.len(),
        )
    }
}

fn observe_batch(
    missing: &Vec<SearchCandidate>,
    batch: &Vec<RoutedRow>,
    observer: &mut HybridScoreObserver,
)
    ensures
        final(observer).fresh_rounds == old(observer).fresh_rounds,
        final(observer)@ == saw_lexical_rows(
            old(observer)@,
            sent_of_batch(missing@, batch@, batch@.len()),
        ),
{
    let mut at: usize = 0;
    while at < batch.len()
        invariant
            at <= batch@.len(),
            observer.fresh_rounds == old(observer).fresh_rounds,
            observer@ == saw_lexical_rows(
                old(observer)@,
                sent_of_batch(missing@, batch@, at as nat),
            ),
        decreases batch.len() - at,
    {
        let position: usize = batch[at].position;
        if position < missing.len() {
            observer.lexical_row(
                PhysicalIdentity {
                    row: missing[position].row_id,
                    document: missing[position].document,
                },
            );
        }
        at = at + 1;
    }
}

proof fn lemma_nothing_routed_sends_nothing(
    missing: Seq<SearchCandidate>,
    batches: Seq<Vec<RoutedRow>>,
    n: nat,
)
    requires
        nothing_routed(batches),
        n <= batches.len(),
    ensures
        sent_rows(missing, batches, n) == Seq::<PhysicalIdentity>::empty(),
    decreases n,
{
    if n > 0 {
        lemma_nothing_routed_sends_nothing(missing, batches, (n - 1) as nat);
        assert(batches[n - 1]@.len() == 0);
    }
}

/// Completes the cross-scores of a term query: `found` holds what the lexical
/// engine found for each batch, and `inner` how it words its own failure. Every
/// score goes to its candidate's place, and a candidate that no source holds, or
/// that does not match, scores zero. A stop is checked at the end, unless
/// nothing was routed. The observer sees the candidates of every batch up to the
/// first that was not scored.
pub fn cross_score_lexical<S: StopSource>(
    missing: &Vec<SearchCandidate>,
    batches: &Vec<Vec<RoutedRow>>,
    found: Vec<Result<BatchScores, ControlledSearchError>>,
    inner: &str,
    poll: &mut StopPoll<S>,
    observer: &mut HybridScoreObserver,
) -> (result: Result<(Vec<Double>, SearchCounters), FusionError>)
    requires
        found@.len() == batches@.len(),
        old(poll).wf(),
    ensures
        final(observer).fresh_rounds == old(observer).fresh_rounds,
        final(poll).follows(*old(poll)),
        final(poll).wf(),
        match result {
            Ok(pair) => {
                &&& final(observer)@ == saw_lexical_rows(
                    old(observer)@,
                    sent_rows(missing@, batches@, batches@.len()),
                )
                &&& if nothing_routed(batches@) {
                    *final(poll) == *old(poll)
                } else {
                    passed(old(poll).answers(), final(poll).answers(), 1)
                }
                &&& forall|i: int|
                    0 <= i < batches@.len() ==> batch_scored(
                        (#[trigger] batches@[i])@,
                        found@[i],
                        missing@.len(),
                    )
                &&& pair.0@ == scores_of(batches@, found@, missing@.len(), batches@.len())
                &&& pair.1 == work_of(batches@, found@, batches@.len())
            },
            Err(error) => {
                ||| {
                    &&& halted(old(poll).answers(), final(poll).answers(), 1) matches Some(stop)
                        && error == leg_stop(stop)
                    &&& !nothing_routed(batches@)
                    &&& final(observer)@ == saw_lexical_rows(
                        old(observer)@,
                        sent_rows(missing@, batches@, batches@.len()),
                    )
                    &&& forall|i: int|
                        0 <= i < batches@.len() ==> batch_scored(
                            (#[trigger] batches@[i])@,
                            found@[i],
                            missing@.len(),
                        )
                }
                ||| *final(poll) == *old(poll) && exists|at: int|
                    #[trigger] first_unscored(batches@, found@, missing@.len(), at)
                        && unscored_as(found@[at], error, inner@) && final(observer)@
                        == saw_lexical_rows(
                        old(observer)@,
                        sent_rows(missing@, batches@, (at + 1) as nat),
                    )
            },
        },
{
    let ghost all = found@;
    let candidates: usize = missing.len();
    let mut scores = zero_scores(candidates);
    let mut counters = SearchCounters::zero();
    if routes_nothing(batches) {
        proof {
            lemma_nothing_routed_scores_nothing(
                batches@,
                all,
                missing@.len(),
                batches@.len(),
            );
            lemma_nothing_routed_sends_nothing(missing@, batches@, batches@.len());
        }
        return Ok((scores, counters));
    }
    let mut rest = found;
    let mut at: usize = 0;
    while at < batches.len()
        invariant
            at <= batches@.len(),
            all == found@,
            *poll == *old(poll),
            poll.wf(),
            all.len() == batches@.len(),
            rest@ == all.skip(at as int),
            scores@.len() == candidates,
            candidates == missing@.len(),
            observer.fresh_rounds == old(observer).fresh_rounds,
            observer@ == saw_lexical_rows(
                old(observer)@,
                sent_rows(missing@, batches@, at as nat),
            ),
            scores@ == scores_of(batches@, all, missing@.len(), at as nat),
            counters == work_of(batches@, all, at as nat),
            forall|i: int|
                0 <= i < at ==> batch_scored(
                    (#[trigger] batches@[i])@,
                    all[i],
                    missing@.len(),
                ),
        decreases batches.len() - at,
    {
        let head = rest.remove(0);
        assert(head == all[at as int]);
        observe_batch(missing, &batches[at], observer);
        if batches[at].len() > 0 {
            match head {
                Err(error) => {
                    assert(first_unscored(batches@, all, missing@.len(), at as int));
                    return Err(map_fusion_controlled_lexical_error(error, inner));
                },
                Ok(batch) => {
                    accumulate_search_counters(&mut counters, &batch.counters);
                    match scatter_scores(&mut scores, &batches[at], &batch.scores) {
                        Ok(_) => {},
                        Err(error) => {
                            assert(first_unscored(batches@, all, missing@.len(), at as int));
                            return Err(error);
                        },
                    }
                },
            }
        }
        at = at + 1;
    }
    let ghost before = poll.answers();
    let checked = check_leg(poll);
    proof {
        lemma_no_check(before);
        lemma_one_more_check(before, before, poll.answers(), 0, poll.answers().last());
    }
    checked?;
    Ok((scores, counters))
}

} // verus!
