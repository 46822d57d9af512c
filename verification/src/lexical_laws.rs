//! What a lexical search answers, in terms of the rows that its hits name.

use crate::candidates::LexicalHit;
use crate::candidates::StructuredLexicalSource;
use crate::control::QueryCancellation;
use crate::control::QueryControl;
use crate::control::StopFlags;
use crate::control::StopState;
use crate::corpus::ActiveFacts;
use crate::corpus::RowFault;
use crate::corpus::SegmentFacts;
use crate::corpus::UnreadDocument;
use crate::corpus::UnreadRow;
use crate::error::ScanError;
use crate::fusion::FusionError;
use crate::ids::DocumentVersion;
use crate::ids::GlobalDocId;
use crate::legs::ExactLexicalLeg;
use crate::legs::StructuredLeg;
use crate::legs::TermLeg;
use crate::lexical::assembled;
use crate::lexical::assembly;
use crate::lexical::hit_document;
use crate::lexical::joined_hits;
use crate::lexical::row_facts;
use crate::lexical::saturating_product;
use crate::lexical::saturating_total;
use crate::lexical::width_of_leg;
use crate::lexical::ControlledSearchError;
use crate::lexical::LexicalDocumentError;
use crate::lexical::ScoredDoc;
use crate::lexical::StoreLexicalError;
use crate::lexical::UnopenedSource;
use crate::lexical_search::explanation;
use crate::lexical_search::find_documents;
use crate::lexical_search::found_answer;
use crate::lexical_search::found_documents;
use crate::lexical_search::later;
use crate::lexical_search::LexicalResult;
use crate::lexical_search::LexicalSearch;
use crate::lexical_search::ScoredList;
use crate::lexical_search::Snippet;
use crate::lexical_search::StoreLexicalSearchOutcome;
use crate::lexical_search::StoreStructuredLexicalSearchOutcome;
use crate::lexical_search::StructuredSearch;
use crate::rank::best;
use crate::rank::lemma_best_is_a_selection;
use crate::rank::ranked;
use crate::score::Double;
use crate::store::Store;
use crate::structured::admitted;
use crate::structured::aggregate_hits;
use crate::structured::docs_of;
use crate::structured::given;
use crate::structured::lists;
use crate::structured::numeric;
use crate::structured::rank_structured;
use crate::structured::scored_docs;
use crate::structured::totals_of;
use crate::structured::with_hits;
use crate::structured::Contribution;
use crate::structured::DocAggregate;
use crate::structured::RankedDoc;
use vstd::prelude::*;

verus! {

/// The document that is pinned for the row of a hit: in the sealed segment that the
/// hit's source stands for, or in the active one.
pub open spec fn pinned_document(
    segments: Seq<SegmentFacts>,
    active: ActiveFacts,
    sources: Seq<StructuredLexicalSource>,
    doc: GlobalDocId,
) -> Option<DocumentVersion> {
    let documents = match sources[doc.segment as int] {
        StructuredLexicalSource::Sealed(ordinal) => segments[ordinal as int].documents@,
        StructuredLexicalSource::Active => active.documents@,
    };
    if doc.row < documents.len() {
        documents[doc.row as int]
    } else {
        None
    }
}

/// Whether a hit names a source of the assembly, and a segment that is there.
pub open spec fn names_a_source(
    segments: Seq<SegmentFacts>,
    sources: Seq<StructuredLexicalSource>,
    doc: GlobalDocId,
) -> bool {
    doc.segment < sources.len() && match sources[doc.segment as int] {
        StructuredLexicalSource::Sealed(ordinal) => ordinal < segments.len(),
        StructuredLexicalSource::Active => true,
    }
}

/// The document of a hit is the one that is pinned for its very row. Where identities
/// are required, a row without one is refused, and a sealed document that could not be
/// read is reported; nothing else fails.
pub proof fn lemma_a_hit_stands_for_its_row(
    segments: Seq<SegmentFacts>,
    active: ActiveFacts,
    sources: Seq<StructuredLexicalSource>,
    doc: GlobalDocId,
    require_document_identity: bool,
    unread: Option<crate::error::SegmentError>,
)
    ensures
        hit_document(segments, active, sources, doc, require_document_identity, unread) matches Ok(
            document,
        ) ==> names_a_source(segments, sources, doc) && document == pinned_document(
            segments,
            active,
            sources,
            doc,
        ) && (require_document_identity ==> document is Some),
        names_a_source(segments, sources, doc) && unread is None && (require_document_identity
            ==> pinned_document(segments, active, sources, doc) is Some) ==> hit_document(
            segments,
            active,
            sources,
            doc,
            require_document_identity,
            unread,
        ) is Ok,
        !names_a_source(segments, sources, doc) ==> hit_document(
            segments,
            active,
            sources,
            doc,
            require_document_identity,
            unread,
        ) is Err,
        names_a_source(segments, sources, doc) && unread is Some && (
        sources[doc.segment as int] is Sealed) ==> hit_document(
            segments,
            active,
            sources,
            doc,
            require_document_identity,
            unread,
        ) == Err::<Option<DocumentVersion>, LexicalDocumentError>(
            LexicalDocumentError::Segment(unread->Some_0),
        ),
{
}

/// A lexical search answers one result per hit, in the order of the hits: each has the
/// score of its own hit and the document that is pinned for that hit's row. It succeeds
/// exactly where every hit has such a document and none could not be read.
pub proof fn lemma_each_hit_has_its_own_result(
    segments: Seq<SegmentFacts>,
    active: ActiveFacts,
    sources: Seq<StructuredLexicalSource>,
    hits: Seq<ScoredDoc>,
    unread: Option<UnreadDocument>,
)
    ensures
        found_documents(segments, active, sources, hits, unread) matches Ok(found) ==> {
            &&& found.len() == hits.len()
            &&& forall|i: int|
                0 <= i < found.len() ==> {
                    &&& (#[trigger] found[i]).score == hits[i].score
                    &&& names_a_source(segments, sources, hits[i].doc)
                    &&& Some(found[i].document) == pinned_document(
                        segments,
                        active,
                        sources,
                        hits[i].doc,
                    )
                }
        },
        (unread is None && forall|i: int|
            0 <= i < hits.len() ==> names_a_source(segments, sources, (#[trigger] hits[i]).doc)
                && pinned_document(segments, active, sources, hits[i].doc) is Some)
            ==> found_documents(segments, active, sources, hits, unread) is Ok,
    decreases hits.len(),
{
    if hits.len() > 0 {
        let rest = hits.drop_last();
        lemma_each_hit_has_its_own_result(segments, active, sources, rest, unread);
        lemma_a_hit_stands_for_its_row(
            segments,
            active,
            sources,
            hits.last().doc,
            true,
            crate::corpus::unread_at(unread, hits.len() - 1),
        );
        assert forall|i: int| 0 <= i < rest.len() implies #[trigger] rest[i] == hits[i] by {}
        if unread is None && (forall|i: int|
            0 <= i < hits.len() ==> names_a_source(segments, sources, (#[trigger] hits[i]).doc)
                && pinned_document(segments, active, sources, hits[i].doc) is Some) {
            assert(hits[hits.len() - 1] == hits.last());
            assert forall|i: int| 0 <= i < rest.len() implies names_a_source(
                segments,
                sources,
                (#[trigger] rest[i]).doc,
            ) && pinned_document(segments, active, sources, rest[i].doc) is Some by {
                assert(rest[i] == hits[i]);
            }
        }
    }
}

/// What a whole lexical query answers: its hits' own results, behind a last stop check.
pub proof fn lemma_a_lexical_answer_holds_the_hits(
    cancellation: QueryCancellation,
    flags: Seq<StopState>,
    segments: Seq<SegmentFacts>,
    active: ActiveFacts,
    sources: Seq<StructuredLexicalSource>,
    searched: Result<Seq<ScoredDoc>, ControlledSearchError>,
    unread: Option<UnreadDocument>,
)
    ensures
        found_answer(cancellation, flags, segments, active, sources, searched, unread) matches Ok(
            found,
        ) ==> {
            &&& searched matches Ok(hits) && found.len() == hits.len() && forall|i: int|
                0 <= i < found.len() ==> (#[trigger] found[i]).score == hits[i].score && Some(
                    found[i].document,
                ) == pinned_document(segments, active, sources, hits[i].doc)
            &&& cancellation.checked(flags) is Ok
        },
        searched is Err || cancellation.checked(flags) is Err ==> found_answer(
            cancellation,
            flags,
            segments,
            active,
            sources,
            searched,
            unread,
        ) is Err,
{
    if let Ok(hits) = searched {
        lemma_each_hit_has_its_own_result(segments, active, sources, hits, unread);
    }
}

/// The lexical leg hands its hits on one by one: each keeps its place, its score and
/// the document of its own row, which may have none.
pub proof fn lemma_a_leg_keeps_its_hits(
    segments: Seq<SegmentFacts>,
    active: ActiveFacts,
    sources: Seq<StructuredLexicalSource>,
    hits: Seq<ScoredDoc>,
    unread: Option<UnreadDocument>,
)
    ensures
        joined_hits(segments, active, sources, hits, unread) matches Ok(joined) ==> {
            &&& joined.len() == hits.len()
            &&& forall|i: int|
                0 <= i < joined.len() ==> {
                    &&& (#[trigger] joined[i]).doc == hits[i].doc
                    &&& joined[i].bm25 == hits[i].score
                    &&& names_a_source(segments, sources, hits[i].doc)
                    &&& joined[i].document == pinned_document(
                        segments,
                        active,
                        sources,
                        hits[i].doc,
                    )
                }
        },
        (unread is None && forall|i: int|
            0 <= i < hits.len() ==> names_a_source(segments, sources, (#[trigger] hits[i]).doc))
            ==> joined_hits(segments, active, sources, hits, unread) is Ok,
    decreases hits.len(),
{
    if hits.len() > 0 {
        let rest = hits.drop_last();
        lemma_a_leg_keeps_its_hits(segments, active, sources, rest, unread);
        lemma_a_hit_stands_for_its_row(
            segments,
            active,
            sources,
            hits.last().doc,
            false,
            crate::corpus::unread_at(unread, hits.len() - 1),
        );
        assert forall|i: int| 0 <= i < rest.len() implies #[trigger] rest[i] == hits[i] by {}
        if unread is None && (forall|i: int|
            0 <= i < hits.len() ==> names_a_source(segments, sources, (#[trigger] hits[i]).doc)) {
            assert(hits[hits.len() - 1] == hits.last());
            assert forall|i: int| 0 <= i < rest.len() implies names_a_source(
                segments,
                sources,
                (#[trigger] rest[i]).doc,
            ) by {
                assert(rest[i] == hits[i]);
            }
        }
    }
}

/// Whether a gathered document passes: where a phrase is asked for, it holds it.
pub open spec fn passes(phrase: Option<Seq<bool>>, place: int) -> bool {
    match phrase {
        Some(matches) => place < matches.len() && matches[place],
        None => true,
    }
}

proof fn lemma_admitted_documents_pass(
    docs: Seq<GlobalDocId>,
    scores: Seq<Double>,
    phrase: Option<Seq<bool>>,
)
    requires
        docs.len() <= usize::MAX,
        docs.len() <= scores.len(),
    ensures
        ({
            let list = admitted(docs, scores, phrase);
            &&& forall|i: int|
                0 <= i < list.len() ==> {
                    let place = (#[trigger] list[i]).place as int;
                    &&& place < docs.len()
                    &&& passes(phrase, place)
                    &&& list[i].doc == docs[place]
                    &&& list[i].score == scores[place]
                }
            &&& forall|i: int, j: int|
                0 <= i < j < list.len() ==> (#[trigger] list[i]).place < (
                #[trigger] list[j]).place
            &&& forall|place: usize|
                place < docs.len() && #[trigger] passes(phrase, place as int) ==> list.contains(
                    RankedDoc { doc: docs[place as int], score: scores[place as int], place },
                )
        }),
    decreases docs.len(),
{
    if docs.len() > 0 {
        let rest = docs.drop_last();
        let last = docs.len() - 1;
        lemma_admitted_documents_pass(rest, scores, phrase);
        let earlier = admitted(rest, scores, phrase);
        let list = admitted(docs, scores, phrase);
        assert forall|i: int| 0 <= i < list.len() implies {
            let place = (#[trigger] list[i]).place as int;
            &&& place < docs.len()
            &&& passes(phrase, place)
            &&& list[i].doc == docs[place]
            &&& list[i].score == scores[place]
        } by {
            if i < earlier.len() {
                assert(list[i] == earlier[i]);
                assert(rest[earlier[i].place as int] == docs[earlier[i].place as int]);
            }
        }
        assert forall|i: int, j: int| 0 <= i < j < list.len() implies (#[trigger] list[i]).place < (
        #[trigger] list[j]).place by {
            assert(list[i] == earlier[i]);
            if j < earlier.len() {
                assert(list[j] == earlier[j]);
            }
        }
        assert forall|place: usize|
            place < docs.len() && #[trigger] passes(phrase, place as int) implies list.contains(
            RankedDoc { doc: docs[place as int], score: scores[place as int], place },
        ) by {
            let wanted = RankedDoc {
                doc: docs[place as int],
                score: scores[place as int],
                place,
            };
            if place < last {
                assert(rest[place as int] == docs[place as int]);
                assert(earlier.contains(wanted));
                let at = choose|at: int| 0 <= at < earlier.len() && earlier[at] == wanted;
                assert(list[at] == wanted);
            } else {
                assert(list[earlier.len() as int] == wanted);
            }
        }
    }
}

/// Whether one document ranks before another: by its score, then by where it stands.
pub open spec fn scores_higher(left: RankedDoc, right: RankedDoc) -> bool {
    ||| numeric(left.score) > numeric(right.score)
    ||| numeric(left.score) == numeric(right.score) && (left.doc.segment < right.doc.segment
        || left.doc.segment == right.doc.segment && left.doc.row < right.doc.row)
}

/// A structured query ranks the documents that pass: every ranked hit stands at a place
/// of its own among the gathered documents, with that place's document and score, and
/// where a phrase is asked for it holds the phrase. The best come first, there are at
/// most `k`, and a document that passes is left out only where `k` are ranked and none
/// of them ranks behind it.
pub proof fn lemma_ranked_hits_are_the_best_that_pass(
    docs: Seq<GlobalDocId>,
    scores: Seq<Double>,
    phrase: Option<Seq<bool>>,
    k: nat,
)
    requires
        docs.len() <= usize::MAX,
        docs.len() <= scores.len(),
    ensures
        ({
            let hits = best(ranked(admitted(docs, scores, phrase)), k);
            &&& hits.len() <= k
            &&& forall|i: int|
                0 <= i < hits.len() ==> {
                    let place = (#[trigger] hits[i]).place as int;
                    &&& place < docs.len()
                    &&& passes(phrase, place)
                    &&& hits[i].doc == docs[place]
                    &&& hits[i].score == scores[place]
                }
            &&& forall|i: int, j: int|
                0 <= i < j < hits.len() ==> !scores_higher(#[trigger] hits[j], #[trigger] hits[i])
                    && hits[i].place != hits[j].place
            &&& forall|place: usize|
                place < docs.len() && #[trigger] passes(phrase, place as int) ==> {
                    let doc = RankedDoc {
                        doc: docs[place as int],
                        score: scores[place as int],
                        place,
                    };
                    hits.contains(doc) || (hits.len() == k && forall|i: int|
                        0 <= i < hits.len() ==> !scores_higher(doc, #[trigger] hits[i]))
                }
        }),
{
    let list = admitted(docs, scores, phrase);
    let hits = best(ranked(list), k);
    lemma_admitted_documents_pass(docs, scores, phrase);
    lemma_best_is_a_selection(list, k);
    assert forall|a: RankedDoc, b: RankedDoc| #[trigger] scores_higher(
        a,
        b,
    ) implies crate::rank::before(
        crate::rank::Ranked::rank(a),
        crate::rank::Ranked::rank(b),
    ) by {}
    assert forall|i: int| 0 <= i < hits.len() implies {
        let place = (#[trigger] hits[i]).place as int;
        &&& place < docs.len()
        &&& passes(phrase, place)
        &&& hits[i].doc == docs[place]
        &&& hits[i].score == scores[place]
    } by {
        assert(hits.contains(hits[i]));
        assert(list.contains(hits[i]));
        let at = choose|at: int| 0 <= at < list.len() && list[at] == hits[i];
        assert(list[at] == hits[i]);
    }
    assert(list.no_duplicates()) by {
        assert forall|i: int, j: int| 0 <= i < list.len() && 0 <= j < list.len() && i
            != j implies list[i] != list[j] by {
            if i < j {
                assert(list[i].place < list[j].place);
            } else {
                assert(list[j].place < list[i].place);
            }
        }
    }
    let order = ranked(list);
    crate::rank::lemma_ranked_is_permutation(list);
    list.lemma_multiset_has_no_duplicates();
    order.lemma_multiset_has_no_duplicates_conv();
    assert forall|i: int, j: int| 0 <= i < j < hits.len() implies !scores_higher(
        #[trigger] hits[j],
        #[trigger] hits[i],
    ) && hits[i].place != hits[j].place by {
        assert(order[i] == hits[i] && order[j] == hits[j]);
        assert(order[i] != order[j]);
        if hits[i].place == hits[j].place {
            assert(hits[i].doc == hits[j].doc && hits[i].score == hits[j].score);
            assert(hits[i] == hits[j]);
        }
    }
    assert forall|place: usize|
        place < docs.len() && #[trigger] passes(phrase, place as int) implies {
        let doc = RankedDoc { doc: docs[place as int], score: scores[place as int], place };
        hits.contains(doc) || (hits.len() == k && forall|i: int|
            0 <= i < hits.len() ==> !scores_higher(doc, #[trigger] hits[i]))
    } by {
        let doc = RankedDoc { doc: docs[place as int], score: scores[place as int], place };
        assert(list.contains(doc));
        if !hits.contains(doc) {
            if list.len() <= k {
                assert(hits == order);
                crate::rank::lemma_permutation_keeps_members(order, list);
            }
            assert forall|i: int| 0 <= i < hits.len() implies !scores_higher(
                doc,
                #[trigger] hits[i],
            ) by {
                if scores_higher(doc, hits[i]) {
                    assert(crate::rank::before(
                        crate::rank::Ranked::rank(doc),
                        crate::rank::Ranked::rank(hits[i]),
                    ));
                }
            }
        }
    }
}

/// The hybrid leg hands ranked documents on with their scores.
pub proof fn lemma_ranked_documents_keep_their_scores(hits: Seq<RankedDoc>)
    ensures
        scored_docs(hits).len() == hits.len(),
        forall|i: int|
            0 <= i < hits.len() ==> (#[trigger] scored_docs(hits)[i]).doc == hits[i].doc
                && scored_docs(hits)[i].score == hits[i].score,
{
}

/// What an expansion found is in a document's contributions.
pub open spec fn is_given(list: Seq<Contribution>, expansion: int, score: Double) -> bool {
    exists|i: int|
        0 <= i < list.len() && (#[trigger] list[i]).expansion == expansion && list[i].score
            == score
}

/// Whether an expansion found a document with a score.
pub open spec fn found_by(hits: Seq<ScoredDoc>, doc: GlobalDocId, score: Double) -> bool {
    exists|h: int|
        0 <= h < hits.len() && (#[trigger] hits[h]).doc == doc && hits[h].score == score
}

/// Whether no document is found twice by one expansion.
pub open spec fn each_once(hits: Seq<ScoredDoc>) -> bool {
    forall|i: int, j: int|
        0 <= i < j < hits.len() ==> (#[trigger] hits[i]).doc != (#[trigger] hits[j]).doc
}

proof fn lemma_hits_extend_a_document(
    totals: Map<GlobalDocId, Seq<Contribution>>,
    expansion: usize,
    hits: Seq<ScoredDoc>,
    m: nat,
    doc: GlobalDocId,
)
    requires
        m <= hits.len(),
    ensures
        ({
            let before = given(totals, doc);
            let after = given(with_hits(totals, expansion, hits, m), doc);
            &&& before.len() <= after.len()
            &&& forall|i: int| 0 <= i < before.len() ==> #[trigger] after[i] == before[i]
            &&& forall|i: int|
                before.len() <= i < after.len() ==> (#[trigger] after[i]).expansion == expansion
                    && exists|h: int|
                    0 <= h < m && (#[trigger] hits[h]).doc == doc && hits[h].score
                        == after[i].score
            &&& forall|h: int|
                0 <= h < m && (#[trigger] hits[h]).doc == doc ==> is_given(
                    after,
                    expansion as int,
                    hits[h].score,
                )
            &&& (forall|h: int| 0 <= h < m ==> (#[trigger] hits[h]).doc != doc) ==> after == before
            &&& each_once(hits) ==> after.len() <= before.len() + 1
            &&& with_hits(totals, expansion, hits, m).dom().contains(doc) <==> (
            totals.dom().contains(doc) || exists|h: int|
                0 <= h < m && (#[trigger] hits[h]).doc == doc)
        }),
    decreases m,
{
    if m > 0 {
        let less = (m - 1) as nat;
        lemma_hits_extend_a_document(totals, expansion, hits, less, doc);
        let first = given(totals, doc);
        let before = given(with_hits(totals, expansion, hits, less), doc);
        let after = given(with_hits(totals, expansion, hits, m), doc);
        let hit = hits[m - 1];
        if hit.doc == doc {
            let added = Contribution { expansion, score: hit.score };
            assert(after == before.push(added));
            assert(after[before.len() as int] == added);
            assert forall|h: int| 0 <= h < m && (#[trigger] hits[h]).doc == doc implies is_given(
                after,
                expansion as int,
                hits[h].score,
            ) by {
                if h < less {
                    let at = choose|at: int|
                        0 <= at < before.len() && (#[trigger] before[at]).expansion == expansion
                            && before[at].score == hits[h].score;
                    assert(after[at] == before[at]);
                } else {
                    assert(after[before.len() as int] == added);
                }
            }
            assert forall|i: int| first.len() <= i < after.len() implies (
            #[trigger] after[i]).expansion == expansion && exists|h: int|
                0 <= h < m && (#[trigger] hits[h]).doc == doc && hits[h].score
                    == after[i].score by {
                if i < before.len() {
                    assert(after[i] == before[i]);
                } else {
                    assert(hits[m - 1].doc == doc && hits[m - 1].score == after[i].score);
                }
            }
            if each_once(hits) {
                assert forall|h: int| 0 <= h < less implies (#[trigger] hits[h]).doc != doc by {
                    assert(hits[h].doc != hits[m - 1].doc);
                }
            }
        } else {
            assert(after == before);
        }
    } else {
        assert(with_hits(totals, expansion, hits, m) == totals);
    }
}

/// What the expansions found is gathered document by document: a document is listed
/// exactly where an expansion found it, each of its contributions names an expansion
/// that found it and the score that it gave, none is lost, and they stand in the order
/// of the expansions, one for each where no expansion finds a document twice.
pub proof fn lemma_contributions_are_what_the_expansions_found(
    hits: Seq<Vec<ScoredDoc>>,
    n: nat,
    doc: GlobalDocId,
)
    requires
        n <= hits.len() <= usize::MAX,
    ensures
        ({
            let totals = totals_of(hits, n);
            let found = totals[doc];
            &&& totals.dom().contains(doc) <==> exists|e: int, h: int|
                0 <= e < n && 0 <= h < hits[e]@.len() && (#[trigger] hits[e]@[h]).doc == doc
            &&& totals.dom().contains(doc) ==> {
                &&& forall|i: int|
                    0 <= i < found.len() ==> (#[trigger] found[i]).expansion < n && found_by(
                        hits[found[i].expansion as int]@,
                        doc,
                        found[i].score,
                    )
                &&& forall|e: int, h: int|
                    0 <= e < n && 0 <= h < hits[e]@.len() && (#[trigger] hits[e]@[h]).doc == doc
                        ==> is_given(found, e, hits[e]@[h].score)
                &&& forall|i: int, j: int|
                    0 <= i < j < found.len() ==> (#[trigger] found[i]).expansion <= (
                    #[trigger] found[j]).expansion
                &&& (forall|e: int| 0 <= e < n ==> each_once(#[trigger] hits[e]@)) ==> forall|
                    i: int,
                    j: int,
                |
                    0 <= i < j < found.len() ==> (#[trigger] found[i]).expansion < (
                    #[trigger] found[j]).expansion
            }
        }),
    decreases n,
{
    let totals = totals_of(hits, n);
    if n > 0 {
        let less = (n - 1) as nat;
        let earlier = totals_of(hits, less);
        let last = hits[n - 1]@;
        lemma_contributions_are_what_the_expansions_found(hits, less, doc);
        lemma_hits_extend_a_document(earlier, less as usize, last, last.len(), doc);
        let before = given(earlier, doc);
        let after = given(totals, doc);
        if totals.dom().contains(doc) {
            assert(after == totals[doc]);
            if !earlier.dom().contains(doc) {
                let h = choose|h: int| 0 <= h < last.len() && (#[trigger] last[h]).doc == doc;
                assert(hits[n - 1]@[h].doc == doc);
            } else {
                let (e, h) = choose|e: int, h: int|
                    0 <= e < less && 0 <= h < hits[e]@.len() && (#[trigger] hits[e]@[h]).doc
                        == doc;
                assert(hits[e]@[h].doc == doc);
            }
            assert forall|i: int| 0 <= i < after.len() implies (#[trigger] after[i]).expansion < n
                && found_by(hits[after[i].expansion as int]@, doc, after[i].score) by {
                if i < before.len() {
                    assert(after[i] == before[i]);
                } else {
                    let h = choose|h: int|
                        0 <= h < last.len() && (#[trigger] last[h]).doc == doc && last[h].score
                            == after[i].score;
                    assert(found_by(last, doc, after[i].score));
                }
            }
            assert forall|e: int, h: int|
                0 <= e < n && 0 <= h < hits[e]@.len() && (#[trigger] hits[e]@[h]).doc
                    == doc implies is_given(after, e, hits[e]@[h].score) by {
                if e < less {
                    let at = choose|at: int|
                        0 <= at < before.len() && (#[trigger] before[at]).expansion == e
                            && before[at].score == hits[e]@[h].score;
                    assert(after[at] == before[at]);
                } else {
                    assert(last[h].doc == doc);
                }
            }
            assert forall|i: int, j: int| 0 <= i < j < after.len() implies (
            #[trigger] after[i]).expansion <= (#[trigger] after[j]).expansion by {
                if j < before.len() {
                    assert(after[i] == before[i] && after[j] == before[j]);
                } else if i < before.len() {
                    assert(after[i] == before[i]);
                }
            }
            if forall|e: int| 0 <= e < n ==> each_once(#[trigger] hits[e]@) {
                assert(each_once(hits[n - 1]@));
                assert forall|i: int, j: int| 0 <= i < j < after.len() implies (
                #[trigger] after[i]).expansion < (#[trigger] after[j]).expansion by {
                    assert(after[i] == before[i]);
                    if j < before.len() {
                        assert(after[j] == before[j]);
                    }
                }
            }
        } else {
            assert forall|e: int, h: int|
                0 <= e < n && 0 <= h < hits[e]@.len() implies (#[trigger] hits[e]@[h]).doc
                != doc by {
                if e == n - 1 {
                    assert(last[h].doc != doc);
                }
            }
        }
    }
}

/// The sources of an assembly are the sealed segments with postings, in the order of
/// the snapshot, and behind them the active segment where it has text.
pub proof fn lemma_sources_are_the_segments_with_text(
    segments: Seq<SegmentFacts>,
    active: ActiveFacts,
    checks: Seq<Result<(), ScanError>>,
    unopened: Option<UnopenedSource>,
    require_document_identity: bool,
)
    requires
        segments.len() <= usize::MAX,
    ensures
        assembly(segments, active, checks, unopened, require_document_identity) matches Ok(sources)
            ==> {
            &&& forall|i: int|
                0 <= i < sources.len() ==> match #[trigger] sources[i] {
                    StructuredLexicalSource::Sealed(ordinal) => ordinal < segments.len()
                        && segments[ordinal as int].has_postings,
                    StructuredLexicalSource::Active => active.has_text && i == sources.len() - 1,
                }
            &&& forall|ordinal: usize|
                ordinal < segments.len() && (#[trigger] segments[ordinal as int]).has_postings
                    ==> sources.contains(StructuredLexicalSource::Sealed(ordinal))
            &&& active.has_text ==> sources.len() > 0 && sources.last()
                == StructuredLexicalSource::Active
            &&& forall|i: int, j: int|
                0 <= i < j < sources.len() && (#[trigger] sources[j]) is Sealed ==> (
                #[trigger] sources[i]) is Sealed && sources[i]->Sealed_0 < sources[j]->Sealed_0
        },
        (exists|i: int| 0 <= i < segments.len() && i < checks.len() && (#[trigger] checks[i]) is Err)
            ==> assembly(segments, active, checks, unopened, require_document_identity) is Err,
{
    lemma_sealed_sources(segments, checks, unopened, require_document_identity, segments.len());
    if let Ok(sealed) = assembled(
        segments,
        checks,
        unopened,
        require_document_identity,
        segments.len(),
    ) {
        if let Ok(sources) = assembly(
            segments,
            active,
            checks,
            unopened,
            require_document_identity,
        ) {
            assert forall|ordinal: usize|
                ordinal < segments.len() && (
                #[trigger] segments[ordinal as int]).has_postings implies sources.contains(
                StructuredLexicalSource::Sealed(ordinal),
            ) by {
                let wanted = StructuredLexicalSource::Sealed(ordinal);
                assert(sealed.contains(wanted));
                let at = choose|at: int| 0 <= at < sealed.len() && sealed[at] == wanted;
                assert(sources[at] == wanted);
            }
        }
    }
}

proof fn lemma_sealed_sources(
    segments: Seq<SegmentFacts>,
    checks: Seq<Result<(), ScanError>>,
    unopened: Option<UnopenedSource>,
    require_document_identity: bool,
    n: nat,
)
    requires
        n <= segments.len() <= usize::MAX,
    ensures
        assembled(segments, checks, unopened, require_document_identity, n) matches Ok(sources) ==> {
            &&& forall|i: int|
                0 <= i < sources.len() ==> (#[trigger] sources[i]) is Sealed
                    && sources[i]->Sealed_0 < n
                    && segments[sources[i]->Sealed_0 as int].has_postings
            &&& forall|ordinal: usize|
                ordinal < n && (#[trigger] segments[ordinal as int]).has_postings
                    ==> sources.contains(StructuredLexicalSource::Sealed(ordinal))
            &&& forall|i: int, j: int|
                0 <= i < j < sources.len() ==> (#[trigger] sources[i])->Sealed_0 < (
                #[trigger] sources[j])->Sealed_0
            &&& forall|i: int| 0 <= i < n && i < checks.len() ==> (#[trigger] checks[i]) is Ok
        },
    decreases n,
{
    if n > 0 {
        let less = (n - 1) as nat;
        lemma_sealed_sources(segments, checks, unopened, require_document_identity, less);
        if let Ok(sources) = assembled(segments, checks, unopened, require_document_identity, n) {
            let earlier = assembled(
                segments,
                checks,
                unopened,
                require_document_identity,
                less,
            )->Ok_0;
            assert forall|ordinal: usize|
                ordinal < n && (
                #[trigger] segments[ordinal as int]).has_postings implies sources.contains(
                StructuredLexicalSource::Sealed(ordinal),
            ) by {
                let wanted = StructuredLexicalSource::Sealed(ordinal);
                if ordinal < less {
                    assert(earlier.contains(wanted));
                    let at = choose|at: int| 0 <= at < earlier.len() && earlier[at] == wanted;
                    assert(sources[at] == wanted);
                } else {
                    assert(sources[earlier.len() as int] == wanted);
                }
            }
        }
    }
}

/// The text and the document of a hit are those that its very row stores.
pub proof fn lemma_a_hit_reads_its_own_row(
    segments: Seq<SegmentFacts>,
    active: ActiveFacts,
    sources: Seq<StructuredLexicalSource>,
    doc: GlobalDocId,
    unread: Option<RowFault>,
)
    ensures
        row_facts(segments, active, sources, doc, unread) matches Ok((text, document)) ==> {
            &&& names_a_source(segments, sources, doc)
            &&& pinned_document(segments, active, sources, doc) == Some(document)
            &&& match sources[doc.segment as int] {
                StructuredLexicalSource::Sealed(ordinal) => {
                    &&& segments[ordinal as int].texts matches Some(texts) && doc.row
                        < texts@.len() && texts@[doc.row as int] == Some(text)
                    &&& unread is None
                },
                StructuredLexicalSource::Active => doc.row < active.texts@.len()
                    && active.texts@[doc.row as int] == Some(text),
            }
        },
        names_a_source(segments, sources, doc) && unread is None && pinned_document(
            segments,
            active,
            sources,
            doc,
        ) is Some && match sources[doc.segment as int] {
            StructuredLexicalSource::Sealed(ordinal) => segments[ordinal as int].texts matches Some(
                texts,
            ) && doc.row < texts@.len() && texts@[doc.row as int] is Some,
            StructuredLexicalSource::Active => doc.row < active.texts@.len()
                && active.texts@[doc.row as int] is Some,
        } ==> row_facts(segments, active, sources, doc, unread) is Ok,
{
}

/// A hit is explained under the document of its own row, and only with a snippet that
/// has text.
pub proof fn lemma_an_explained_hit_is_its_own_document(
    segments: Seq<SegmentFacts>,
    active: ActiveFacts,
    sources: Seq<StructuredLexicalSource>,
    hit: RankedDoc,
    unread: Option<RowFault>,
    found: Result<Option<Snippet>, StoreLexicalError>,
)
    ensures
        explanation(segments, active, sources, hit, unread, found) matches Ok(document) ==> {
            &&& names_a_source(segments, sources, hit.doc)
            &&& pinned_document(segments, active, sources, hit.doc) == Some(document)
            &&& found matches Ok(Some(snippet)) && snippet.text is Some
        },
{
    lemma_a_hit_reads_its_own_row(segments, active, sources, hit.doc, unread);
}

/// A leg is asked for as many hits as are wanted, but for no more than there are
/// documents.
pub proof fn lemma_a_leg_asks_for_what_there_is(bound: usize, document_count: u64)
    ensures
        width_of_leg(bound, document_count) <= bound,
        width_of_leg(bound, document_count) <= document_count,
        width_of_leg(bound, document_count) == bound || width_of_leg(bound, document_count)
            == document_count,
{
}

/// The later of two positions in the log is one of them, and no earlier than either.
pub proof fn lemma_the_later_position_is_reported(left: u64, right: u64)
    ensures
        later(left, right) >= left && later(left, right) >= right,
        later(left, right) == left || later(left, right) == right,
{
}

/// The number of allowed rows is their sum, as far as it can be counted, and what is
/// compared with the documents is the product, as far as it can be.
pub proof fn lemma_allowed_rows_are_summed(counts: Seq<u64>, divisor: u64)
    ensures
        saturating_total(counts) == u64::MAX || saturating_total(counts) == sum_of(counts),
        sum_of(counts) <= u64::MAX ==> saturating_total(counts) == sum_of(counts),
        saturating_total(counts) * divisor <= u64::MAX ==> saturating_product(
            saturating_total(counts),
            divisor,
        ) == saturating_total(counts) * divisor,
        saturating_total(counts) * divisor > u64::MAX ==> saturating_product(
            saturating_total(counts),
            divisor,
        ) == u64::MAX,
    decreases counts.len(),
{
    if counts.len() > 0 {
        lemma_allowed_rows_are_summed(counts.drop_last(), divisor);
        lemma_sums_are_not_negative(counts.drop_last());
    }
}

/// The sum of some counts.
pub open spec fn sum_of(counts: Seq<u64>) -> int
    decreases counts.len(),
{
    if counts.len() == 0 {
        0
    } else {
        sum_of(counts.drop_last()) + counts.last()
    }
}

proof fn lemma_sums_are_not_negative(counts: Seq<u64>)
    ensures
        sum_of(counts) >= 0,
    decreases counts.len(),
{
    if counts.len() > 0 {
        lemma_sums_are_not_negative(counts.drop_last());
    }
}

/// Whether results answer hits one by one: each with the score of its own hit and the
/// document that is pinned for that hit's row.
pub open spec fn answers_hits(
    found: Seq<LexicalResult>,
    segments: Seq<SegmentFacts>,
    active: ActiveFacts,
    sources: Seq<StructuredLexicalSource>,
    hits: Seq<ScoredDoc>,
) -> bool {
    &&& found.len() == hits.len()
    &&& forall|i: int|
        0 <= i < found.len() ==> (#[trigger] found[i]).score == hits[i].score && names_a_source(
            segments,
            sources,
            hits[i].doc,
        ) && pinned_document(segments, active, sources, hits[i].doc) == Some(found[i].document)
}

/// The documents of hits are found hit by hit.
pub proof fn lemma_found_documents_answer_their_hits(
    segments: &Vec<SegmentFacts>,
    active: &ActiveFacts,
    sources: &Vec<StructuredLexicalSource>,
    hits: &Vec<ScoredDoc>,
    unread: Option<UnreadDocument>,
    result: Result<Vec<LexicalResult>, StoreLexicalError>,
)
    requires
        call_ensures(find_documents, (segments, active, sources, hits, unread), result),
    ensures
        result matches Ok(found) ==> answers_hits(
            found@,
            segments@,
            *active,
            sources@,
            hits@,
        ),
        unread is None && (forall|i: int|
            0 <= i < hits@.len() ==> names_a_source(segments@, sources@, (#[trigger] hits@[i]).doc)
                && pinned_document(segments@, *active, sources@, hits@[i].doc) is Some)
            ==> result is Ok,
{
    lemma_each_hit_has_its_own_result(segments@, *active, sources@, hits@, unread);
}

/// A finished lexical query answers the engine's hits one by one, at the generation
/// that it was admitted at, and reports how many it returns; it is no longer counted
/// among the queries in flight.
pub proof fn lemma_a_finished_lexical_query_answers_its_hits(
    store: &mut Store,
    search: LexicalSearch,
    flags: &mut StopFlags,
    segments: &Vec<SegmentFacts>,
    active: &ActiveFacts,
    k: usize,
    searched: Result<ScoredList, ControlledSearchError>,
    now: u128,
    unread: Option<UnreadDocument>,
    elapsed: u128,
    result: Result<StoreLexicalSearchOutcome, StoreLexicalError>,
)
    requires
        call_ensures(
            Store::finish_lexical,
            (store, search, flags, segments, active, k, searched, now, unread, elapsed),
            result,
        ),
    ensures
        result matches Ok(outcome) ==> {
            &&& searched matches Ok(list) && answers_hits(
                outcome.candidates@,
                segments@,
                *active,
                search.sources@,
                list.hits@,
            ) && outcome.diagnostics.counters == list.counters
            &&& outcome.generation == search.lease.generation
            &&& outcome.diagnostics.requested_k == k
            &&& outcome.diagnostics.returned == outcome.candidates@.len()
            &&& outcome.diagnostics.snapshot_generation == search.lease.generation
            &&& outcome.diagnostics.indexed_through_seq >= active.indexed_through_seq
            &&& outcome.diagnostics.indexed_through_seq >= search.absorbed_through
            &&& outcome.diagnostics.elapsed == elapsed
        },
        searched is Err ==> result is Err,
        old(store).active_queries > 0 ==> final(store).active_queries == old(store).active_queries
            - 1,
        final(store).state == old(store).state,
        final(store).snapshot == old(store).snapshot,
        final(store).accounting == old(store).accounting,
{
    if let Ok(list) = searched {
        lemma_each_hit_has_its_own_result(
            segments@,
            *active,
            search.sources@,
            list.hits@,
            unread,
        );
        if let Ok(outcome) = result {
            assert(outcome.candidates@.len() == outcome.candidates.len());
        }
    }
}

/// A whole lexical query answers the engine's hits one by one, over the segments with
/// text of the snapshot that the store publishes, and leaves the store as it was.
pub proof fn lemma_a_lexical_query_answers_its_hits(
    store: &mut Store,
    flags: &mut StopFlags,
    control: QueryControl,
    segments: &Vec<SegmentFacts>,
    active: &ActiveFacts,
    k: usize,
    before: u128,
    checks: &Vec<Result<(), ScanError>>,
    unopened: Option<UnopenedSource>,
    searched: Result<ScoredList, ControlledSearchError>,
    after: u128,
    unread: Option<UnreadDocument>,
    elapsed: u128,
    result: Result<StoreLexicalSearchOutcome, StoreLexicalError>,
)
    requires
        call_ensures(
            Store::search_lexical,
            (
                store,
                flags,
                control,
                segments,
                active,
                k,
                before,
                checks,
                unopened,
                searched,
                after,
                unread,
                elapsed,
            ),
            result,
        ),
    ensures
        *final(store) == *old(store),
        result matches Ok(outcome) ==> {
            &&& old(store).lease_answer() matches Ok(lease) && outcome.generation
                == lease.generation
            &&& assembly(segments@, *active, checks@, unopened, true) matches Ok(sources) && (
            searched matches Ok(list) && answers_hits(
                outcome.candidates@,
                segments@,
                *active,
                sources,
                list.hits@,
            ) && outcome.diagnostics.counters == list.counters)
            &&& outcome.diagnostics.requested_k == k
            &&& outcome.diagnostics.returned == outcome.candidates@.len()
            &&& outcome.diagnostics.elapsed == elapsed
        },
        old(store).lease_answer() is Err ==> result is Err,
        searched is Err ==> result is Err,
{
    if let (Ok(list), Ok(sources)) = (
        searched,
        assembly(segments@, *active, checks@, unopened, true),
    ) {
        lemma_each_hit_has_its_own_result(segments@, *active, sources, list.hits@, unread);
        if let Ok(outcome) = result {
            assert(outcome.candidates@.len() == outcome.candidates.len());
        }
    }
}

/// Whether a list holds what one expansion found of a document.
pub open spec fn is_gathered(list: Seq<DocAggregate>, hit: ScoredDoc, expansion: int) -> bool {
    exists|at: int|
        0 <= at < list.len() && (#[trigger] list[at]).doc == hit.doc && is_given(
            list[at].contributions@,
            expansion,
            hit.score,
        )
}

/// Whether a list holds, in the order of the documents, one entry for every document
/// that an expansion found, with all that was found of it.
pub open spec fn gathers_hits(list: Seq<DocAggregate>, hits: Seq<Vec<ScoredDoc>>) -> bool {
    &&& forall|a: int, b: int|
        0 <= a < b < list.len() ==> {
            let (one, other) = ((#[trigger] list[a]).doc, (#[trigger] list[b]).doc);
            one.segment < other.segment || one.segment == other.segment && one.row < other.row
        }
    &&& forall|at: int, i: int|
        0 <= at < list.len() && 0 <= i < list[at].contributions@.len() ==> {
            let one = #[trigger] list[at].contributions@[i];
            one.expansion < hits.len() && found_by(
                hits[one.expansion as int]@,
                list[at].doc,
                one.score,
            )
        }
    &&& forall|e: int, h: int|
        0 <= e < hits.len() && 0 <= h < hits[e]@.len() ==> is_gathered(
            list,
            #[trigger] hits[e]@[h],
            e,
        )
    &&& forall|at: int, i: int, j: int|
        #![trigger list[at].contributions@[i], list[at].contributions@[j]]
        0 <= at < list.len() && 0 <= i < j < list[at].contributions@.len()
            ==> list[at].contributions@[i].expansion <= list[at].contributions@[j].expansion
}

#[verifier::spinoff_prover]
proof fn lemma_listed_totals_gather_the_hits(list: Seq<DocAggregate>, hits: Seq<Vec<ScoredDoc>>)
    requires
        lists(list, totals_of(hits, hits.len())),
        hits.len() <= usize::MAX,
    ensures
        gathers_hits(list, hits),
{
    let totals = totals_of(hits, hits.len());
    assert forall|a: int, b: int| 0 <= a < b < list.len() implies {
        let (one, other) = ((#[trigger] list[a]).doc, (#[trigger] list[b]).doc);
        one.segment < other.segment || one.segment == other.segment && one.row < other.row
    } by {
        assert(crate::ids::doc_before(list[a].doc, list[b].doc));
    }
    assert forall|at: int, i: int|
        0 <= at < list.len() && 0 <= i < list[at].contributions@.len() implies {
        let one = #[trigger] list[at].contributions@[i];
        one.expansion < hits.len() && found_by(
            hits[one.expansion as int]@,
            list[at].doc,
            one.score,
        )
    } by {
        lemma_contributions_are_what_the_expansions_found(hits, hits.len(), list[at].doc);
        assert(totals[list[at].doc][i] == list[at].contributions@[i]);
    }
    assert forall|e: int, h: int| 0 <= e < hits.len() && 0 <= h < hits[e]@.len() implies is_gathered(
        list,
        #[trigger] hits[e]@[h],
        e,
    ) by {
        let doc = hits[e]@[h].doc;
        lemma_contributions_are_what_the_expansions_found(hits, hits.len(), doc);
        assert(totals.dom().contains(doc));
        let at = choose|at: int| 0 <= at < list.len() && (#[trigger] list[at]).doc == doc;
        assert(totals[doc] == list[at].contributions@);
    }
    assert forall|at: int, i: int, j: int|
        #![trigger list[at].contributions@[i], list[at].contributions@[j]]
        0 <= at < list.len() && 0 <= i < j
            < list[at].contributions@.len() implies list[at].contributions@[i].expansion
        <= list[at].contributions@[j].expansion by {
        lemma_contributions_are_what_the_expansions_found(hits, hits.len(), list[at].doc);
        assert(totals[list[at].doc] == list[at].contributions@);
    }
}

/// What the expansions of a query found is gathered document by document.
pub proof fn lemma_aggregates_gather_the_hits(
    hits: &Vec<Vec<ScoredDoc>>,
    list: Vec<DocAggregate>,
)
    requires
        call_ensures(aggregate_hits, (hits,), list),
    ensures
        gathers_hits(list@, hits@),
{
    assert(hits@.len() == hits.len());
    lemma_listed_totals_gather_the_hits(list@, hits@);
}

/// A structured query gathers all that its expansions found.
pub proof fn lemma_a_structured_query_gathers_its_hits(search: &mut StructuredSearch)
    requires
        call_ensures(StructuredSearch::gather, (search,), ()),
    ensures
        gathers_hits(final(search).aggregates@, old(search).scored@),
        final(search).scored == old(search).scored,
        final(search).expansions == old(search).expansions,
        final(search).sources == old(search).sources,
{
    assert(final(search).scored@.len() == final(search).scored.len());
    lemma_listed_totals_gather_the_hits(final(search).aggregates@, final(search).scored@);
}

/// The structured hybrid leg gathers all that its expansions found.
pub proof fn lemma_a_structured_leg_gathers_its_hits(leg: &mut StructuredLeg)
    requires
        call_ensures(StructuredLeg::gather, (leg,), ()),
    ensures
        gathers_hits(final(leg).aggregates@, old(leg).scored@),
        final(leg).scored == old(leg).scored,
        final(leg).expansions == old(leg).expansions,
        final(leg).sources == old(leg).sources,
{
    assert(final(leg).scored@.len() == final(leg).scored.len());
    lemma_listed_totals_gather_the_hits(final(leg).aggregates@, final(leg).scored@);
}

/// Which documents hold the phrase, where one is asked for.
pub open spec fn flags_of(phrase: Option<&Vec<bool>>) -> Option<Seq<bool>> {
    match phrase {
        Some(matches) => Some(matches@),
        None => None,
    }
}

/// Whether hits are the best of the gathered documents that pass.
pub open spec fn ranks_gathered(
    hits: Seq<RankedDoc>,
    list: Seq<DocAggregate>,
    scores: Seq<Double>,
    phrase: Option<Seq<bool>>,
    k: nat,
) -> bool {
    &&& hits.len() <= k
    &&& forall|i: int|
        0 <= i < hits.len() ==> {
            let place = (#[trigger] hits[i]).place as int;
            &&& place < list.len()
            &&& passes(phrase, place)
            &&& hits[i].doc == list[place].doc
            &&& hits[i].score == scores[place]
        }
    &&& forall|i: int, j: int|
        0 <= i < j < hits.len() ==> !scores_higher(#[trigger] hits[j], #[trigger] hits[i])
            && hits[i].place != hits[j].place
    &&& forall|place: usize|
        place < list.len() && #[trigger] passes(phrase, place as int) ==> {
            let doc = RankedDoc {
                doc: list[place as int].doc,
                score: scores[place as int],
                place,
            };
            hits.contains(doc) || (hits.len() == k && forall|i: int|
                0 <= i < hits.len() ==> !scores_higher(doc, #[trigger] hits[i]))
        }
}

/// The best of what was gathered are ranked as they passed.
pub proof fn lemma_ranked_gathered(
    list: Seq<DocAggregate>,
    scores: Seq<Double>,
    phrase: Option<Seq<bool>>,
    k: nat,
)
    requires
        list.len() <= usize::MAX,
        list.len() <= scores.len(),
    ensures
        ranks_gathered(
            best(ranked(admitted(docs_of(list), scores, phrase)), k),
            list,
            scores,
            phrase,
            k,
        ),
{
    let docs = docs_of(list);
    lemma_ranked_hits_are_the_best_that_pass(docs, scores, phrase, k);
    assert forall|i: int| 0 <= i < docs.len() implies #[trigger] docs[i] == list[i].doc by {}
}

/// Gathered documents are ranked: those that pass, the best first, at most `k`.
pub proof fn lemma_ranking_keeps_the_best_that_pass(
    list: &Vec<DocAggregate>,
    scores: &Vec<Double>,
    phrase: Option<&Vec<bool>>,
    k: usize,
    result: Vec<RankedDoc>,
)
    requires
        call_ensures(rank_structured, (list, scores, phrase, k), result),
        scores@.len() == list@.len(),
    ensures
        ranks_gathered(
            result@,
            list@,
            scores@,
            flags_of(phrase),
            k as nat,
        ),
{
    assert(list@.len() == list.len());
    lemma_ranked_gathered(
        list@,
        scores@,
        flags_of(phrase),
        k as nat,
    );
}

/// A structured query ranks its gathered documents: those that pass, the best first, at
/// most `k`.
pub proof fn lemma_a_structured_query_ranks_the_best_that_pass(
    search: &mut StructuredSearch,
    segments: &Vec<SegmentFacts>,
    active: &ActiveFacts,
    scores: &Vec<Double>,
    phrase: Option<&Vec<bool>>,
    unread: Option<UnreadRow>,
    k: usize,
    result: Result<(), StoreLexicalError>,
)
    requires
        call_ensures(
            StructuredSearch::rank,
            (search, segments, active, scores, phrase, unread, k),
            result,
        ),
        scores@.len() == old(search).aggregates@.len(),
    ensures
        result is Ok ==> ranks_gathered(
            final(search).ranked@,
            old(search).aggregates@,
            scores@,
            flags_of(phrase),
            k as nat,
        ),
        phrase is None ==> result is Ok,
        final(search).aggregates == old(search).aggregates,
        final(search).candidates == old(search).candidates,
{
    assert(scores@.len() == scores.len());
    lemma_ranked_gathered(
        old(search).aggregates@,
        scores@,
        flags_of(phrase),
        k as nat,
    );
}

/// A hit is explained under the document of its own row, with its own score, the
/// snippet that was found for it, and the expansions that contributed to it.
pub proof fn lemma_an_explained_hit_keeps_its_score(
    search: &mut StructuredSearch,
    flags: &mut StopFlags,
    segments: &Vec<SegmentFacts>,
    active: &ActiveFacts,
    now: u128,
    unread: Option<RowFault>,
    found: Result<Option<Snippet>, StoreLexicalError>,
    result: Result<(), StoreLexicalError>,
)
    requires
        call_ensures(
            StructuredSearch::explain_next,
            (search, flags, segments, active, now, unread, found),
            result,
        ),
        result is Ok,
    ensures
        ({
            let hit = old(search).ranked@[old(search).candidates@.len() as int];
            let added = final(search).candidates@.last();
            let given = old(search).aggregates@[hit.place as int].contributions@;
            &&& final(search).candidates@.len() == old(search).candidates@.len() + 1
            &&& forall|i: int|
                0 <= i < old(search).candidates@.len() ==> #[trigger] final(search).candidates@[i]
                    == old(search).candidates@[i]
            &&& final(search).ranked == old(search).ranked
            &&& added.score == hit.score
            &&& names_a_source(segments@, old(search).sources@, hit.doc)
            &&& pinned_document(segments@, *active, old(search).sources@, hit.doc) == Some(
                added.document,
            )
            &&& found == Ok::<Option<Snippet>, StoreLexicalError>(Some(added.snippet))
            &&& added.snippet.text is Some
            &&& added.provenance@.len() == given.len()
            &&& forall|i: int|
                0 <= i < given.len() ==> {
                    let expansion = old(search).expansions@[(#[trigger] given[i]).expansion as int];
                    added.provenance@[i].term@ == expansion.term@
                        && added.provenance@[i].boost_thousandths == expansion.boost_thousandths
                        && added.provenance@[i].kind == expansion.kind
                }
        }),
{
    let hit = old(search).ranked@[old(search).candidates@.len() as int];
    lemma_an_explained_hit_is_its_own_document(
        segments@,
        *active,
        old(search).sources@,
        hit,
        unread,
        found,
    );
    let added = final(search).candidates@.last();
    let given = old(search).aggregates@[hit.place as int].contributions@;
    assert(crate::lexical_search::is_provenance(
        added.provenance@,
        old(search).expansions@,
        given,
    ));
}

/// A finished structured query returns what it explained, at the generation that it was
/// admitted at.
pub proof fn lemma_a_finished_structured_query_returns_what_it_explained(
    store: &mut Store,
    search: StructuredSearch,
    flags: &mut StopFlags,
    active: &ActiveFacts,
    k: usize,
    now: u128,
    elapsed: u128,
    result: Result<StoreStructuredLexicalSearchOutcome, StoreLexicalError>,
)
    requires
        call_ensures(
            Store::finish_structured,
            (store, search, flags, active, k, now, elapsed),
            result,
        ),
    ensures
        result matches Ok(outcome) ==> {
            &&& outcome.candidates == search.candidates
            &&& outcome.expansions == search.expansions
            &&& outcome.generation == search.lease.generation
            &&& outcome.diagnostics.requested_k == k
            &&& outcome.diagnostics.returned == search.candidates@.len()
            &&& outcome.diagnostics.counters == search.counters
            &&& outcome.diagnostics.elapsed == elapsed
        },
        old(store).active_queries > 0 ==> final(store).active_queries == old(store).active_queries
            - 1,
        final(store).state == old(store).state,
        final(store).snapshot == old(store).snapshot,
{
    assert(search.candidates@.len() == search.candidates.len());
}

/// Whether joined hits are those of a list one by one, with the documents of their rows.
pub open spec fn joins_hits(
    joined: Seq<LexicalHit>,
    segments: Seq<SegmentFacts>,
    active: ActiveFacts,
    sources: Seq<StructuredLexicalSource>,
    hits: Seq<ScoredDoc>,
) -> bool {
    &&& joined.len() == hits.len()
    &&& forall|i: int|
        0 <= i < joined.len() ==> (#[trigger] joined[i]).doc == hits[i].doc && joined[i].bm25
            == hits[i].score && names_a_source(segments, sources, hits[i].doc)
            && joined[i].document == pinned_document(segments, active, sources, hits[i].doc)
}

/// The lexical leg of a plain hybrid query hands the engine's hits on one by one, and
/// lists its terms as they were asked; a leg without sources finds nothing.
pub proof fn lemma_a_term_leg_keeps_its_hits(
    leg: TermLeg,
    segments: &Vec<SegmentFacts>,
    active: &ActiveFacts,
    terms: &Vec<String>,
    searched: Result<ScoredList, FusionError>,
    unread: Option<UnreadDocument>,
    result: Result<ExactLexicalLeg, FusionError>,
)
    requires
        call_ensures(
            TermLeg::exact_lexical_leg,
            (leg, segments, active, terms, searched, unread),
            result,
        ),
        result is Ok,
    ensures
        ({
            let done = result->Ok_0;
            &&& done.sources == leg.sources
            &&& done.expansions@.len() == terms@.len()
            &&& forall|i: int|
                0 <= i < terms@.len() ==> (#[trigger] done.expansions@[i]).term@ == terms@[i]@
                    && done.expansions@[i].boost_thousandths == 1000
            &&& leg.sources@.len() == 0 ==> done.hits@.len() == 0
            &&& leg.sources@.len() > 0 ==> (searched matches Ok(list) && joins_hits(
                done.hits@,
                segments@,
                *active,
                leg.sources@,
                list.hits@,
            ) && done.counters == list.counters)
        }),
{
    if let Ok(list) = searched {
        lemma_a_leg_keeps_its_hits(segments@, *active, leg.sources@, list.hits@, unread);
    }
    assert(crate::lexical::plain_expansions(result->Ok_0.expansions@, terms@));
}

/// The lexical leg of a structured hybrid query hands the best of its gathered documents
/// on, with their scores and the documents of their rows.
pub proof fn lemma_a_structured_leg_keeps_the_best(
    leg: StructuredLeg,
    segments: &Vec<SegmentFacts>,
    active: &ActiveFacts,
    scores: &Vec<Double>,
    phrase: Option<&Vec<bool>>,
    unread_row: Option<UnreadRow>,
    words: String,
    unread: Option<UnreadDocument>,
    result: Result<ExactLexicalLeg, FusionError>,
)
    requires
        call_ensures(
            StructuredLeg::exact_structured_lexical_leg,
            (leg, segments, active, scores, phrase, unread_row, words, unread),
            result,
        ),
        leg.sources@.len() > 0 && leg.expansions@.len() > 0,
        scores@.len() == leg.aggregates@.len(),
        result is Ok,
    ensures
        ({
            let done = result->Ok_0;
            &&& done.sources == leg.sources
            &&& done.expansions == leg.expansions
            &&& done.counters == leg.counters
            &&& exists|hits: Seq<RankedDoc>|
                #[trigger] ranks_gathered(
                    hits,
                    leg.aggregates@,
                    scores@,
                    flags_of(phrase),
                    leg.k as nat,
                ) && done.hits@.len() == hits.len() && forall|i: int|
                    0 <= i < hits.len() ==> (#[trigger] done.hits@[i]).doc == hits[i].doc
                        && done.hits@[i].bm25 == hits[i].score && done.hits@[i].document
                        == pinned_document(segments@, *active, leg.sources@, hits[i].doc)
        }),
{
    let wanted = flags_of(phrase);
    assert(scores@.len() == scores.len());
    let hits = best(
        ranked(admitted(docs_of(leg.aggregates@), scores@, wanted)),
        leg.k as nat,
    );
    lemma_ranked_gathered(leg.aggregates@, scores@, wanted, leg.k as nat);
    lemma_ranked_documents_keep_their_scores(hits);
    let kept = leg.kept(scores@, wanted);
    assert(kept == scored_docs(hits));
    lemma_a_leg_keeps_its_hits(segments@, *active, leg.sources@, kept, unread);
    assert(ranks_gathered(hits, leg.aggregates@, scores@, wanted, leg.k as nat));
}

} // verus!
