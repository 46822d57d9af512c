//! Exact distances of rows that only the lexical leg found.

use crate::candidates::SearchCandidate;
use crate::candidates::StructuredLexicalSource;
use crate::corpus::ActiveFacts;
use crate::corpus::SegmentFacts;
use crate::error::QueryError;
use crate::error::ScanError;
use crate::error::SegmentError;
use crate::fusion::FusionError;
use crate::fusion::FusionLeg;
use crate::fusion::LegFailureKind;
use crate::identity::is_vector_invariant;
use crate::identity::vector_invariant;
use crate::identity::PhysicalIdentity;
use crate::ids::GlobalDocId;
use crate::ids::GlobalRowId;
use crate::ids::RowSource;
use crate::lexical::document_error_text;
use crate::lexical::hit_document;
use crate::lexical::is_lexical_leg;
use crate::lexical::map_term_leg_document_error;
use crate::lexical::structured_lexical_document;
use crate::observations::saw_vector_row;
use crate::observations::HybridScoreObserver;
use crate::observations::ObservedScoring;
use crate::poll::check_leg;
use crate::poll::leg_stop;
use crate::poll::StopPoll;
use crate::poll::StopSource;
use crate::round::RoundPlan;
use crate::score::Score;
use vstd::prelude::*;

verus! {

/// Where the full-precision values of one row stand: in a sealed segment, by
/// its place in the snapshot, or in the active segment.
#[derive(Clone, Copy, Debug, PartialEq, Eq, Structural)]
pub struct CrossFillRow {
    pub segment: Option<usize>,
    pub start: usize,
    pub end: usize,
}

/// Values of one row among `values` of its source, where they are all there.
pub open spec fn row_range(row: u32, dimension: usize, values: usize) -> Option<(usize, usize)> {
    if (row + 1) * dimension <= values {
        Some(((row * dimension) as usize, ((row + 1) * dimension) as usize))
    } else {
        None
    }
}

/// The source of a lexical hit: a sealed segment by its place in the snapshot,
/// or the active segment.
pub fn cross_fill_source(
    sources: &Vec<StructuredLexicalSource>,
    segment_count: usize,
    doc: GlobalDocId,
) -> (result: Result<Option<usize>, FusionError>)
    ensures
        if doc.segment >= sources@.len() {
            result matches Err(error) && is_vector_invariant(
                error,
                "hybrid cross-fill named an unknown lexical segment"@,
            )
        } else {
            match sources@[doc.segment as int] {
                StructuredLexicalSource::Active => result == Ok::<Option<usize>, FusionError>(None),
                StructuredLexicalSource::Sealed(ordinal) => if ordinal < segment_count {
                    result == Ok::<Option<usize>, FusionError>(Some(ordinal))
                } else {
                    result matches Err(error) && is_vector_invariant(
                        error,
                        "hybrid cross-fill named an absent sealed segment"@,
                    )
                },
            }
        },
{
    let slot: usize = doc.segment as usize;
    if slot >= sources.len() {
        return Err(vector_invariant("hybrid cross-fill named an unknown lexical segment"));
    }
    match sources[slot] {
        StructuredLexicalSource::Active => Ok(None),
        StructuredLexicalSource::Sealed(ordinal) => if ordinal < segment_count {
            Ok(Some(ordinal))
        } else {
            Err(vector_invariant("hybrid cross-fill named an absent sealed segment"))
        },
    }
}

/// A row placed in its source, or the complaint that it is outside.
pub open spec fn placed_in(
    result: Result<CrossFillRow, FusionError>,
    segment: Option<usize>,
    row: u32,
    dimension: usize,
    values: usize,
) -> bool {
    match row_range(row, dimension, values) {
        Some((start, end)) => result == Ok::<CrossFillRow, FusionError>(
            CrossFillRow { segment, start, end },
        ),
        None => result matches Err(error) && is_vector_invariant(
            error,
            "hybrid cross-fill row is outside its segment"@,
        ),
    }
}

fn place_row(segment: Option<usize>, row: u32, dimension: usize, values: usize) -> (result: Result<
    CrossFillRow,
    FusionError,
>)
    ensures
        placed_in(result, segment, row, dimension, values),
{
    let outside = "hybrid cross-fill row is outside its segment";
    assert((row + 1) * dimension == row * dimension + dimension) by (nonlinear_arith);
    match (row as usize).checked_mul(dimension) {
        None => Err(vector_invariant(outside)),
        Some(start) => match start.checked_add(dimension) {
            None => Err(vector_invariant(outside)),
            Some(end) => if end <= values {
                Ok(CrossFillRow { segment, start, end })
            } else {
                Err(vector_invariant(outside))
            },
        },
    }
}

/// The source of the rows that a lexical source holds.
pub open spec fn row_source(
    segments: Seq<SegmentFacts>,
    source: StructuredLexicalSource,
) -> RowSource {
    match source {
        StructuredLexicalSource::Active => RowSource::Active,
        StructuredLexicalSource::Sealed(ordinal) => RowSource::Sealed(
            segments[ordinal as int].id,
        ),
    }
}

/// What an observer sees of a located row: its identity with the document that
/// is read back for it. A document that cannot be read is a failure of the leg,
/// which only an open window can meet.
pub open spec fn is_observed(
    segments: Seq<SegmentFacts>,
    active: ActiveFacts,
    sources: Seq<StructuredLexicalSource>,
    doc: GlobalDocId,
    unread: Option<SegmentError>,
    seen: Option<ObservedScoring>,
    failure: Option<FusionError>,
    seen_after: Option<ObservedScoring>,
) -> bool {
    if seen is None {
        failure is None && seen_after is None
    } else {
        match hit_document(segments, active, sources, doc, false, unread) {
            Err(reason) => {
                &&& failure matches Some(error) && is_lexical_leg(
                    error,
                    if reason is Segment {
                        LegFailureKind::Segment
                    } else {
                        LegFailureKind::Invariant
                    },
                    document_error_text(reason),
                )
                &&& seen_after == seen
            },
            Ok(document) => {
                &&& failure is None
                &&& seen_after == saw_vector_row(
                    seen,
                    PhysicalIdentity {
                        row: GlobalRowId {
                            source: row_source(segments, sources[doc.segment as int]),
                            local_row: doc.row,
                        },
                        document,
                    },
                )
            },
        }
    }
}

fn observe_row(
    segments: &Vec<SegmentFacts>,
    active: &ActiveFacts,
    sources: &Vec<StructuredLexicalSource>,
    doc: GlobalDocId,
    unread: Option<SegmentError>,
    observer: &mut HybridScoreObserver,
) -> (failure: Option<FusionError>)
    ensures
        final(observer).fresh_rounds == old(observer).fresh_rounds,
        is_observed(
            segments@,
            *active,
            sources@,
            doc,
            unread,
            old(observer)@,
            failure,
            final(observer)@,
        ),
{
    if !observer.is_open() {
        return None;
    }
    let document = match structured_lexical_document(
        segments,
        active,
        sources,
        doc,
        false,
        unread,
    ) {
        Ok(document) => document,
        Err(error) => {
            return Some(map_term_leg_document_error(error));
        },
    };
    let source = match sources[doc.segment as usize] {
        StructuredLexicalSource::Active => RowSource::Active,
        StructuredLexicalSource::Sealed(ordinal) => RowSource::Sealed(segments[ordinal].id),
    };
    observer.vector_row(PhysicalIdentity { row: GlobalRowId::new(source, doc.row), document });
    None
}

fn holds_place(places: &Vec<usize>, place: usize) -> (result: bool)
    ensures
        result == places@.contains(place),
{
    let mut at: usize = 0;
    while at < places.len()
        invariant
            at <= places@.len(),
            forall|i: int| 0 <= i < at ==> places@[i] != place,
        decreases places.len() - at,
    {
        if places[at] == place {
            assert(places@[at as int] == place);
            return true;
        }
        at = at + 1;
    }
    false
}

/// Begins with one hit of the lexical window: a stop is checked for every hit,
/// and the answer says whether its distance has to be read.
pub fn begin_cross_fill<S: StopSource>(plan: &RoundPlan, place: usize, poll: &mut StopPoll<S>) -> (result:
    Result<bool, FusionError>)
    requires
        old(poll).wf(),
    ensures
        final(poll).follows(*old(poll)),
        final(poll).wf(),
        ({
            let answer = final(poll).answers().last();
            &&& final(poll).answers() == old(poll).answers().push(answer)
            &&& old(poll).found matches Some(stop) ==> answer == Err::<(), ScanError>(stop)
            &&& result == match answer {
                Err(stop) => Err(leg_stop(stop)),
                Ok(_) => Ok(plan.vector_needed@.contains(place)),
            }
        }),
{
    check_leg(poll)?;
    Ok(holds_place(&plan.vector_needed, place))
}

/// Locates the values of a row in its source, and shows the row to the
/// observer. `values` says how many full-precision values the source holds, or
/// why they cannot be read; `unread` says why the row's document could not be
/// read back, where it could not.
pub fn cross_fill_row(
    segments: &Vec<SegmentFacts>,
    active: &ActiveFacts,
    sources: &Vec<StructuredLexicalSource>,
    segment: Option<usize>,
    doc: GlobalDocId,
    dimension: usize,
    values: Result<usize, QueryError>,
    inner: &str,
    unread: Option<SegmentError>,
    observer: &mut HybridScoreObserver,
) -> (result: Result<CrossFillRow, FusionError>)
    ensures
        final(observer).fresh_rounds == old(observer).fresh_rounds,
        match values {
            Err(refused) => {
                &&& result matches Err(error) && error.stands_for(
                    refused,
                    FusionLeg::Vector,
                    inner@,
                )
                &&& final(observer)@ == old(observer)@
            },
            Ok(count) => if row_range(doc.row, dimension, count) is None {
                &&& placed_in(result, segment, doc.row, dimension, count)
                &&& final(observer)@ == old(observer)@
            } else {
                exists|failure: Option<FusionError>|
                    #[trigger] is_observed(
                        segments@,
                        *active,
                        sources@,
                        doc,
                        unread,
                        old(observer)@,
                        failure,
                        final(observer)@,
                    ) && match failure {
                        Some(error) => result == Err::<CrossFillRow, FusionError>(error),
                        None => placed_in(result, segment, doc.row, dimension, count),
                    }
            },
        },
{
    let count: usize = match values {
        Err(error) => {
            return Err(FusionError::from_query(error, FusionLeg::Vector, inner));
        },
        Ok(count) => count,
    };
    let row = place_row(segment, doc.row, dimension, count)?;
    match observe_row(segments, active, sources, doc, unread, observer) {
        Some(error) => Err(error),
        None => Ok(row),
    }
}

/// Takes the distance of a located row: it has to be finite.
pub fn exact_squared_l2(distance: Score) -> (result: Result<Score, FusionError>)
    ensures
        if distance.spec_is_finite() {
            result == Ok::<Score, FusionError>(distance)
        } else {
            result matches Err(error) && is_vector_invariant(
                error,
                "hybrid cross-fill produced a non-finite distance"@,
            )
        },
{
    if distance.is_finite() {
        Ok(distance)
    } else {
        Err(vector_invariant("hybrid cross-fill produced a non-finite distance"))
    }
}

/// The distance behind a vector candidate's score.
pub fn candidate_squared_l2(candidate: &SearchCandidate) -> (distance: Score)
    ensures
        distance == candidate.score.spec_negated(),
{
    candidate.score.negated()
}

} // verus!
