//! What is read for a row, a hit or an answer, step by step.

use crate::accounting::Accounting;
use crate::candidates::LexicalHit;
use crate::candidates::SearchCandidate;
use crate::candidates::StructuredLexicalSource;
use crate::control::QueryControl;
use crate::control::StopFlags;
use crate::corpus::is_alive;
use crate::corpus::read_document;
use crate::corpus::ActiveFacts;
use crate::corpus::RowFault;
use crate::corpus::SegmentFacts;
use crate::corpus::UnreadDocument;
use crate::corpus::UnreadRow;
use crate::cross_fill::begin_cross_fill;
use crate::cross_fill::candidate_squared_l2;
use crate::cross_fill::exact_squared_l2;
use crate::cross_lexical::answered;
use crate::cross_lexical::scatter_scores;
use crate::cross_lexical::scattered;
use crate::cross_lexical::RoutedRow;
use crate::error::QueryError;
use crate::error::ScanError;
use crate::error::SegmentError;
use crate::error::StoreError;
use crate::expansion::expand;
use crate::expansion::ExpansionError;
use crate::fusion::FusionError;
use crate::fusion::FusionOutcome;
use crate::graph_cache::NormRange;
use crate::hybrid::HybridRoundBuffers;
use crate::hybrid::HybridWork;
use crate::hybrid_search::HybridSearch;
use crate::hybrid_search::StoreHybridSearchOutcome;
use crate::ids::DocumentVersion;
use crate::ids::GlobalDocId;
use crate::ids::GlobalRowId;
use crate::ids::RowSource;
use crate::legs::StructuredLeg;
use crate::legs::TermLeg;
use crate::lexical::assemble_lexical_index;
use crate::lexical::exact_hybrid_lexical_strategy;
use crate::lexical::join_hits;
use crate::lexical::leg_width;
use crate::lexical::structured_lexical_document;
use crate::lexical::structured_lexical_row;
use crate::lexical::term_expansions;
use crate::lexical::ControlledSearchError;
use crate::lexical::LexicalAssemblyError;
use crate::lexical::LexicalDocumentError;
use crate::lexical::LexicalExpansion;
use crate::lexical::LexicalMatchKind;
use crate::lexical::LexicalStrategy;
use crate::lexical::ScoredDoc;
use crate::lexical::StoreLexicalError;
use crate::lexical::UnopenedSource;
use crate::lexical_laws::joins_hits;
use crate::lexical_laws::lemma_a_hit_reads_its_own_row;
use crate::lexical_laws::lemma_a_hit_stands_for_its_row;
use crate::lexical_laws::lemma_a_leg_keeps_its_hits;
use crate::lexical_laws::lemma_allowed_rows_are_summed;
use crate::lexical_laws::lemma_sources_are_the_segments_with_text;
use crate::lexical_laws::names_a_source;
use crate::lexical_laws::pinned_document;
use crate::lexical_laws::sum_of;
use crate::lexical_search::read_rows;
use crate::lexical_search::rows_read;
use crate::lexical_search::LexicalSearch;
use crate::lexical_search::ScoredList;
use crate::lexical_search::StructuredSearch;
use crate::materialize::lexical_row_id;
use crate::materialize::MaterializationError;
use crate::materialize::MaterializedRow;
use crate::materialize::QueryMaterializer;
use crate::materialize::ResultAddress;
use crate::poll::StopPoll;
use crate::poll::StopSource;
use crate::prepared::GraphExactScore;
use crate::prepared::PreparedVectorQuery;
use crate::prepared_lexical::PhraseEligibility;
use crate::prepared_lexical::PhraseReadError;
use crate::rank::before;
use crate::rank::rank_items;
use crate::rank::ranked;
use crate::rank::Ranked;
use crate::resource_laws::identity_of_row;
use crate::resource_laws::keeps_score;
use crate::round::HybridRound;
use crate::round::RoundPlan;
use crate::score::Double;
use crate::score::Score;
use crate::search::compute_segment_vector_ceiling_norm_range;
use crate::search::fold_vector_ceiling;
use crate::search::fold_worst_squared_l2;
use crate::search::remembered_segment_vector_ceiling_norm_range;
use crate::store::Store;
use crate::structured::docs_of;
use crate::structured::numeric;
use crate::structured::DocAggregate;
use crate::text_laws::lemma_address_text;
use crate::text_laws::row_holds;
use crate::vector_search::SearchOutcome;
use vstd::prelude::*;

verus! {

/// The document of a row is the one that is pinned for it, and none behind the end.
pub proof fn lemma_a_row_has_its_own_document(
    documents: &Vec<Option<DocumentVersion>>,
    row: usize,
    document: Option<DocumentVersion>,
)
    requires
        call_ensures(read_document, (documents, row), document),
    ensures
        row < documents@.len() ==> document == documents@[row as int],
        row >= documents@.len() ==> document is None,
{
}

/// A row is alive where it is marked so, and dead behind the end.
pub proof fn lemma_a_row_is_alive_where_it_is_marked(alive: &Vec<bool>, row: u32, result: bool)
    requires
        call_ensures(is_alive, (alive, row), result),
    ensures
        result <==> row < alive@.len() && alive@[row as int],
{
}

/// The document that is read for a hit is the one of its own row.
pub proof fn lemma_a_hit_reads_its_own_document(
    segments: &Vec<SegmentFacts>,
    active: &ActiveFacts,
    sources: &Vec<StructuredLexicalSource>,
    doc: GlobalDocId,
    required: bool,
    unread: Option<SegmentError>,
    result: Result<Option<DocumentVersion>, LexicalDocumentError>,
)
    requires
        call_ensures(
            structured_lexical_document,
            (segments, active, sources, doc, required, unread),
            result,
        ),
    ensures
        result matches Ok(document) ==> names_a_source(segments@, sources@, doc) && document
            == pinned_document(segments@, *active, sources@, doc) && (required ==> document is Some),
        names_a_source(segments@, sources@, doc) && unread is None && (required
            ==> pinned_document(segments@, *active, sources@, doc) is Some) ==> result is Ok,
{
    lemma_a_hit_stands_for_its_row(segments@, *active, sources@, doc, required, unread);
}

/// The text and document that are read for a hit are those of its own row.
pub proof fn lemma_a_hit_reads_its_own_text(
    segments: &Vec<SegmentFacts>,
    active: &ActiveFacts,
    sources: &Vec<StructuredLexicalSource>,
    doc: GlobalDocId,
    unread: Option<RowFault>,
    result: Result<(&String, DocumentVersion), StoreLexicalError>,
)
    requires
        call_ensures(structured_lexical_row, (segments, active, sources, doc, unread), result),
    ensures
        result matches Ok(read) ==> {
            let texts = match sources@[doc.segment as int] {
                StructuredLexicalSource::Sealed(ordinal) => segments@[ordinal as int].texts->0@,
                StructuredLexicalSource::Active => active.texts@,
            };
            &&& names_a_source(segments@, sources@, doc)
            &&& pinned_document(segments@, *active, sources@, doc) == Some(read.1)
            &&& doc.row < texts.len() && texts[doc.row as int] == Some(*read.0)
        },
{
    lemma_a_hit_reads_its_own_row(segments@, *active, sources@, doc, unread);
}

/// The row of a lexical hit is the one that it names, in the source that it stands for.
pub proof fn lemma_a_hit_names_its_own_row(
    segments: &Vec<SegmentFacts>,
    sources: &Vec<StructuredLexicalSource>,
    doc: GlobalDocId,
    result: Result<GlobalRowId, MaterializationError>,
)
    requires
        call_ensures(lexical_row_id, (segments, sources, doc), result),
    ensures
        result is Ok <==> names_a_source(segments@, sources@, doc),
        result matches Ok(row) ==> row.local_row == doc.row && match sources@[doc.segment as int] {
            StructuredLexicalSource::Active => row.source == RowSource::Active,
            StructuredLexicalSource::Sealed(ordinal) => row.source == RowSource::Sealed(
                segments@[ordinal as int].id,
            ),
        },
{
}

/// Hits are joined with the documents of their own rows, one by one and in order.
pub proof fn lemma_hits_are_joined_with_their_documents(
    segments: &Vec<SegmentFacts>,
    active: &ActiveFacts,
    sources: &Vec<StructuredLexicalSource>,
    hits: &Vec<ScoredDoc>,
    unread: Option<UnreadDocument>,
    result: Result<Vec<LexicalHit>, LexicalDocumentError>,
)
    requires
        call_ensures(join_hits, (segments, active, sources, hits, unread), result),
    ensures
        result matches Ok(joined) ==> joins_hits(joined@, segments@, *active, sources@, hits@),
        (unread is None && forall|i: int|
            0 <= i < hits@.len() ==> names_a_source(segments@, sources@, (#[trigger] hits@[i]).doc))
            ==> result is Ok,
{
    lemma_a_leg_keeps_its_hits(segments@, *active, sources@, hits@, unread);
}

/// Whether sources are the sealed segments with postings, in order, and behind them the
/// active segment where it has text.
pub open spec fn are_the_sources(
    sources: Seq<StructuredLexicalSource>,
    segments: Seq<SegmentFacts>,
    active: ActiveFacts,
) -> bool {
    &&& forall|i: int|
        0 <= i < sources.len() ==> match #[trigger] sources[i] {
            StructuredLexicalSource::Sealed(ordinal) => ordinal < segments.len()
                && segments[ordinal as int].has_postings,
            StructuredLexicalSource::Active => active.has_text && i == sources.len() - 1,
        }
    &&& forall|ordinal: usize|
        ordinal < segments.len() && (#[trigger] segments[ordinal as int]).has_postings
            ==> sources.contains(StructuredLexicalSource::Sealed(ordinal))
    &&& active.has_text ==> sources.len() > 0 && sources.last() == StructuredLexicalSource::Active
    &&& forall|i: int, j: int|
        0 <= i < j < sources.len() && (#[trigger] sources[j]) is Sealed ==> (
        #[trigger] sources[i]) is Sealed && sources[i]->Sealed_0 < sources[j]->Sealed_0
}

/// An assembly has the segments with text as its sources.
pub proof fn lemma_an_assembly_has_the_segments_with_text(
    segments: &Vec<SegmentFacts>,
    active: &ActiveFacts,
    required: bool,
    checks: &Vec<Result<(), ScanError>>,
    unopened: Option<UnopenedSource>,
    result: Result<Vec<StructuredLexicalSource>, LexicalAssemblyError>,
)
    requires
        call_ensures(
            assemble_lexical_index,
            (segments, active, required, checks, unopened),
            result,
        ),
    ensures
        result matches Ok(sources) ==> are_the_sources(sources@, segments@, *active),
{
    assert(segments@.len() == segments.len());
    lemma_sources_are_the_segments_with_text(segments@, *active, checks@, unopened, required);
}

/// A plain leg reads the segments with text, and asks for as many hits as are wanted and
/// there are documents.
pub proof fn lemma_a_term_leg_reads_the_segments_with_text(
    segments: &Vec<SegmentFacts>,
    active: &ActiveFacts,
    checks: &Vec<Result<(), ScanError>>,
    unopened: Option<UnopenedSource>,
    bound: usize,
    document_count: u64,
    inner: &str,
    result: Result<TermLeg, FusionError>,
)
    requires
        call_ensures(
            TermLeg::begin,
            (segments, active, checks, unopened, bound, document_count, inner),
            result,
        ),
    ensures
        result matches Ok(leg) ==> {
            &&& are_the_sources(leg.sources@, segments@, *active)
            &&& leg.k <= bound && leg.k <= document_count
            &&& leg.k == bound || leg.k == document_count
        },
{
    assert(segments@.len() == segments.len());
    lemma_sources_are_the_segments_with_text(segments@, *active, checks@, unopened, false);
}

/// A structured leg reads the segments with text, and begins with its expansions and
/// nothing found.
pub proof fn lemma_a_structured_leg_reads_the_segments_with_text(
    segments: &Vec<SegmentFacts>,
    active: &ActiveFacts,
    checks: &Vec<Result<(), ScanError>>,
    unopened: Option<UnopenedSource>,
    expanded: Result<Vec<LexicalExpansion>, String>,
    bound: usize,
    document_count: u64,
    inner: &str,
    result: Result<StructuredLeg, FusionError>,
)
    requires
        call_ensures(
            StructuredLeg::begin,
            (segments, active, checks, unopened, expanded, bound, document_count, inner),
            result,
        ),
    ensures
        result matches Ok(leg) ==> {
            &&& are_the_sources(leg.sources@, segments@, *active)
            &&& leg.k <= bound && leg.k <= document_count
            &&& leg.k == bound || leg.k == document_count
            &&& expanded == Ok::<Vec<LexicalExpansion>, String>(leg.expansions)
            &&& leg.scored@.len() == 0 && leg.aggregates@.len() == 0
        },
{
    assert(segments@.len() == segments.len());
    lemma_sources_are_the_segments_with_text(segments@, *active, checks@, unopened, false);
}

/// A lexical query that begins is pinned to the published snapshot and reads the
/// segments with text.
pub proof fn lemma_a_lexical_query_reads_the_segments_with_text(
    store: &mut Store,
    flags: &mut StopFlags,
    control: QueryControl,
    segments: &Vec<SegmentFacts>,
    active: &ActiveFacts,
    checks: &Vec<Result<(), ScanError>>,
    unopened: Option<UnopenedSource>,
    now: u128,
    result: Result<LexicalSearch, StoreLexicalError>,
)
    requires
        call_ensures(
            Store::begin_lexical,
            (store, flags, control, segments, active, checks, unopened, now),
            result,
        ),
    ensures
        result matches Ok(search) ==> {
            &&& are_the_sources(search.sources@, segments@, *active)
            &&& old(store).snapshot is Some && old(store).active is Some
            &&& search.lease.flag == old(store).snapshot->0.flag
            &&& search.lease.generation == old(store).active->0.generation
            &&& search.absorbed_through == old(store).snapshot->0.absorbed_through
            &&& search.cancellation.control == control
            &&& search.cancellation.lease_flag == search.lease.flag
            &&& old(store).active_queries < u64::MAX ==> final(store).active_queries == old(
                store).active_queries + 1
        },
        result is Err ==> *final(store) == *old(store),
{
    assert(segments@.len() == segments.len());
    lemma_sources_are_the_segments_with_text(segments@, *active, checks@, unopened, true);
}

/// What an expansion of a leg found stands behind what the earlier ones found.
pub proof fn lemma_a_leg_keeps_what_each_expansion_found(
    leg: &mut StructuredLeg,
    found: Result<ScoredList, FusionError>,
    result: Result<(), FusionError>,
)
    requires
        call_ensures(StructuredLeg::accept_expansion, (leg, found), result),
    ensures
        result is Ok <==> found is Ok,
        result is Err ==> *final(leg) == *old(leg),
        result is Ok ==> {
            let (before, after) = (old(leg).scored@, final(leg).scored@);
            &&& after.len() == before.len() + 1
            &&& after.last() == found->Ok_0.hits
            &&& forall|i: int| 0 <= i < before.len() ==> #[trigger] after[i] == before[i]
            &&& final(leg).sources == old(leg).sources && final(leg).expansions == old(
                leg).expansions && final(leg).k == old(leg).k
        },
{
}

/// What an expansion of a query found stands behind what the earlier ones found.
pub proof fn lemma_a_query_keeps_what_each_expansion_found(
    search: &mut StructuredSearch,
    flags: &mut StopFlags,
    now: u128,
    found: Result<ScoredList, ControlledSearchError>,
    result: Result<(), StoreLexicalError>,
)
    requires
        call_ensures(StructuredSearch::accept_expansion, (search, flags, now, found), result),
    ensures
        result is Err ==> *final(search) == *old(search),
        found is Err ==> result is Err,
        result is Ok ==> {
            let (before, after) = (old(search).scored@, final(search).scored@);
            &&& after.len() == before.len() + 1
            &&& after.last() == found->Ok_0.hits
            &&& forall|i: int| 0 <= i < before.len() ==> #[trigger] after[i] == before[i]
            &&& final(search).expansions@ == old(search).expansions@ && final(search).sources@
                == old(search).sources@
        },
{
}

/// A plain query lists its terms as they were asked, each once, with unit boost.
pub proof fn lemma_a_plain_query_lists_its_terms(
    terms: &Vec<String>,
    expansions: Vec<LexicalExpansion>,
)
    requires
        call_ensures(term_expansions, (terms,), expansions),
    ensures
        expansions@.len() == terms@.len(),
        forall|i: int|
            0 <= i < terms@.len() ==> (#[trigger] expansions@[i]).term@ == terms@[i]@
                && expansions@[i].boost_thousandths == 1000 && expansions@[i].kind
                == LexicalMatchKind::Term,
{
}

/// The allowed rows drive the search where they are few: where their number times the
/// divisor is at most the number of documents.
pub proof fn lemma_few_allowed_rows_drive_the_search(
    allowed: &Vec<u64>,
    divisor: u64,
    document_count: u64,
    strategy: LexicalStrategy,
)
    requires
        call_ensures(exact_hybrid_lexical_strategy, (allowed, divisor, document_count), strategy),
        sum_of(allowed@) <= u64::MAX,
        document_count < u64::MAX,
    ensures
        strategy == LexicalStrategy::AllowListDriven <==> sum_of(allowed@) * divisor
            <= document_count,
{
    lemma_allowed_rows_are_summed(allowed@, divisor);
}

/// A leg is asked for the smaller of what is wanted and what there is.
pub proof fn lemma_a_leg_is_as_wide_as_it_may(bound: usize, document_count: u64, k: usize)
    requires
        call_ensures(leg_width, (bound, document_count), k),
    ensures
        k <= bound && k <= document_count,
        k == bound || k == document_count,
{
}

proof fn lemma_scattered_scores(
    scores: Seq<Double>,
    batch: Seq<RoutedRow>,
    results: Seq<Option<Double>>,
    n: nat,
)
    requires
        n <= batch.len(),
        n <= results.len(),
        forall|i: int| 0 <= i < n ==> (#[trigger] batch[i]).position < scores.len(),
        forall|i: int, j: int|
            0 <= i < j < n ==> (#[trigger] batch[i]).position != (#[trigger] batch[j]).position,
    ensures
        scattered(scores, batch, results, n).len() == scores.len(),
        forall|i: int|
            0 <= i < n ==> scattered(scores, batch, results, n)[(
            #[trigger] batch[i]).position as int] == match results[i] {
                Some(score) => score,
                None => (Double { bits: 0 }),
            },
        forall|at: int|
            0 <= at < scores.len() && (forall|i: int|
                0 <= i < n ==> (#[trigger] batch[i]).position != at) ==> #[trigger] scattered(
                scores,
                batch,
                results,
                n,
            )[at] == scores[at],
    decreases n,
{
    if n > 0 {
        lemma_scattered_scores(scores, batch, results, (n - 1) as nat);
        assert(batch[n - 1].position < scores.len());
    }
}

/// The scores of a batch go to the places of its rows, each to its own: a row without a
/// score gets zero, and no other place changes.
pub proof fn lemma_scores_go_to_the_places_of_their_rows(
    scores: &mut Vec<Double>,
    batch: &Vec<RoutedRow>,
    results: &Vec<Option<Double>>,
    result: Result<(), FusionError>,
)
    requires
        call_ensures(scatter_scores, (scores, batch, results), result),
        batch@.len() == results@.len(),
        forall|i: int, j: int|
            0 <= i < j < batch@.len() ==> (#[trigger] batch@[i]).position != (
            #[trigger] batch@[j]).position,
    ensures
        result is Ok <==> forall|i: int|
            0 <= i < batch@.len() ==> (#[trigger] batch@[i]).position < old(scores)@.len(),
        result is Ok ==> {
            &&& forall|i: int|
                0 <= i < batch@.len() ==> final(scores)@[(#[trigger] batch@[i]).position as int]
                    == match results@[i] {
                    Some(score) => score,
                    None => (Double { bits: 0 }),
                }
            &&& forall|at: int|
                0 <= at < old(scores)@.len() && (forall|i: int|
                    0 <= i < batch@.len() ==> (#[trigger] batch@[i]).position != at)
                    ==> #[trigger] final(scores)@[at] == old(scores)@[at]
        },
{
    if result is Ok {
        assert(answered(batch@, results@) == batch@.len());
        lemma_scattered_scores(old(scores)@, batch@, results@, batch@.len());
    }
}

/// The distance of a vector candidate is its score with the other sign.
pub proof fn lemma_a_distance_is_the_negated_score(candidate: &SearchCandidate, distance: Score)
    requires
        call_ensures(candidate_squared_l2, (candidate,), distance),
    ensures
        candidate.score.bits >= 0x8000_0000 ==> distance.bits == candidate.score.bits
            - 0x8000_0000,
        candidate.score.bits < 0x8000_0000 ==> distance.bits == candidate.score.bits + 0x8000_0000,
{
}

/// A crossed distance is taken as it is, and only where it is finite.
pub proof fn lemma_a_crossed_distance_is_taken_as_it_is(
    distance: Score,
    result: Result<Score, FusionError>,
)
    requires
        call_ensures(exact_squared_l2, (distance,), result),
    ensures
        result is Ok <==> distance.spec_is_finite(),
        result matches Ok(taken) ==> taken == distance,
{
}

/// A place of the lexical window is filled exactly where the plan needs its distance.
pub proof fn lemma_a_needed_place_is_filled<S: StopSource>(
    plan: &RoundPlan,
    place: usize,
    poll: &mut StopPoll<S>,
    result: Result<bool, FusionError>,
)
    requires
        call_ensures(begin_cross_fill::<S>, (plan, place, poll), result),
    ensures
        result matches Ok(fills) ==> (fills <==> exists|i: int|
            0 <= i < plan.vector_needed@.len() && #[trigger] plan.vector_needed@[i] == place),
{
}

/// The text at an address is that of its own row, under the address's own document.
pub proof fn lemma_an_address_reads_its_own_text(
    materializer: &mut QueryMaterializer,
    segments: &Vec<SegmentFacts>,
    active: &ActiveFacts,
    address: ResultAddress,
    read: Result<(), StoreError>,
    denied: bool,
    result: Result<(DocumentVersion, String), MaterializationError>,
)
    requires
        call_ensures(
            QueryMaterializer::materialize_address,
            (materializer, segments, active, address, read, denied),
            result,
        ),
    ensures
        result matches Ok(pair) ==> address.document == Some(pair.0) && row_holds(
            segments@,
            *active,
            address.row_id,
            pair.0,
            pair.1@,
        ) && read is Ok && !denied,
{
    if result is Ok {
        lemma_address_text(segments@, *active, address);
        assert(read is Ok);
    }
}

/// The bound of a query grows with each source: it is the larger of the two, and never
/// one that is not finite.
pub proof fn lemma_a_ceiling_never_falls(
    current: Double,
    bound: Double,
    result: Result<Double, QueryError>,
)
    requires
        call_ensures(fold_vector_ceiling, (current, bound), result),
    ensures
        result is Ok <==> bound.spec_is_finite(),
        result matches Ok(ceiling) ==> {
            &&& ceiling == current || ceiling == bound
            &&& numeric(ceiling) >= numeric(current) && numeric(ceiling) >= numeric(bound)
        },
{
}

/// The farthest row of a query is the farthest of its sources, and it is known to be so
/// only while every source that found rows named its own.
pub proof fn lemma_the_farthest_row_is_that_of_all_sources(
    worst: &mut Option<Double>,
    exhaustive: &mut bool,
    found: Option<Double>,
    candidates: usize,
)
    requires
        call_ensures(fold_worst_squared_l2, (worst, exhaustive, found, candidates), ()),
    ensures
        found is None ==> *final(worst) == *old(worst),
        found is Some && *old(worst) is None ==> *final(worst) == found,
        found is Some && *old(worst) is Some ==> {
            let (a, b, c) = ((*old(worst))->0, found->0, (*final(worst))->0);
            &&& *final(worst) is Some
            &&& c == a || c == b
            &&& numeric(c) >= numeric(a) && numeric(c) >= numeric(b)
        },
        *final(exhaustive) <==> *old(exhaustive) && (found is Some || candidates == 0),
{
}

/// The norms of a segment come from its factors where it holds four-bit codes, and from
/// its exact rows where it holds bytes or full vectors.
pub proof fn lemma_norms_come_from_the_right_region(
    scheme: u16,
    factors: Result<NormRange, SegmentError>,
    rows: Result<NormRange, SegmentError>,
    result: Result<NormRange, QueryError>,
)
    requires
        call_ensures(compute_segment_vector_ceiling_norm_range, (scheme, factors, rows), result),
    ensures
        result matches Ok(range) ==> {
            &&& scheme == 4 ==> factors == Ok::<NormRange, SegmentError>(range)
            &&& scheme != 4 ==> rows == Ok::<NormRange, SegmentError>(range)
            &&& scheme == 0 || scheme == 2 || scheme == 4
        },
        scheme == 4 && factors is Ok ==> result is Ok,
        (scheme == 0 || scheme == 2) && rows is Ok ==> result is Ok,
{
}

/// Norms that are remembered are not read again, and norms that were read are remembered.
pub proof fn lemma_norms_are_remembered(
    remembered: &mut Option<NormRange>,
    scheme: u16,
    factors: Result<NormRange, SegmentError>,
    rows: Result<NormRange, SegmentError>,
    result: Result<NormRange, QueryError>,
)
    requires
        call_ensures(
            remembered_segment_vector_ceiling_norm_range,
            (remembered, scheme, factors, rows),
            result,
        ),
    ensures
        *old(remembered) matches Some(known) ==> result == Ok::<NormRange, QueryError>(known)
            && *final(remembered) == *old(remembered),
        result matches Ok(range) ==> *final(remembered) == Some(range),
        *old(remembered) is None && result is Ok ==> {
            &&& scheme == 4 ==> factors == Ok::<NormRange, SegmentError>(result->Ok_0)
            &&& scheme != 4 ==> rows == Ok::<NormRange, SegmentError>(result->Ok_0)
        },
        result is Err ==> *final(remembered) is None,
{
}

/// Ranking loses no item, doubles none, and puts none before one that ranks before it.
pub proof fn lemma_ranking_only_orders<T: Ranked>(items: &mut Vec<T>)
    requires
        call_ensures(rank_items::<T>, (items,), ()),
    ensures
        final(items)@.to_multiset() == old(items)@.to_multiset(),
        forall|i: int, j: int|
            0 <= i < j < final(items)@.len() ==> !before(
                (#[trigger] final(items)@[j]).rank(),
                (#[trigger] final(items)@[i]).rank(),
            ),
{
    crate::rank::lemma_ranked_is_permutation(old(items)@);
    crate::rank::lemma_ranked_is_ranked(old(items)@);
}

/// A kept graph score is read under its own row and document.
pub proof fn lemma_a_graph_score_is_that_of_its_row(
    query: &PreparedVectorQuery,
    source: RowSource,
    row: usize,
    document: Option<DocumentVersion>,
    fault: Option<SegmentError>,
    result: Result<Option<u64>, QueryError>,
)
    requires
        call_ensures(
            PreparedVectorQuery::graph_score,
            (query, source, row, document, fault),
            result,
        ),
        query.sorted == query.graph_scores.items@.len(),
    ensures
        result is Ok <==> row <= u32::MAX && fault is None,
        result matches Ok(Some(bits)) ==> keeps_score(
            query.graph_scores.items@,
            identity_of_row(source, row, document),
            bits,
        ),
        result == Ok::<Option<u64>, QueryError>(None) ==> forall|i: int|
            0 <= i < query.graph_scores.items@.len() ==> (
            #[trigger] query.graph_scores.items@[i]).identity != identity_of_row(
                source,
                row,
                document,
            ),
{
}

/// A graph score is kept under its own row and document, behind the others.
pub proof fn lemma_a_graph_score_is_kept_under_its_row(
    query: &mut PreparedVectorQuery,
    accounting: &mut Accounting,
    source: RowSource,
    row: usize,
    document: Option<DocumentVersion>,
    fault: Option<SegmentError>,
    bits: u64,
    result: Result<(), QueryError>,
)
    requires
        call_ensures(
            PreparedVectorQuery::insert_graph_score,
            (query, accounting, source, row, document, fault, bits),
            result,
        ),
    ensures
        result is Ok ==> {
            let (before, after) = (old(query).graph_scores.items@, final(query).graph_scores.items@);
            &&& after.len() == before.len() + 1
            &&& after.last() == (GraphExactScore {
                identity: identity_of_row(source, row, document),
                bits,
            })
            &&& forall|i: int| 0 <= i < before.len() ==> #[trigger] after[i] == before[i]
        },
        result is Err ==> *final(query) == *old(query),
{
}

/// Finished graph scores are the same scores, all of them readable.
pub proof fn lemma_finished_graph_scores_are_all_readable(query: &mut PreparedVectorQuery)
    requires
        call_ensures(PreparedVectorQuery::finish_graph_scores, (query,), ()),
    ensures
        final(query).graph_scores.items@.to_multiset() == old(
            query).graph_scores.items@.to_multiset(),
        final(query).sorted == final(query).graph_scores.items@.len(),
{
    crate::rank::lemma_ranked_is_permutation(old(query).graph_scores.items@);
    assert(ranked(old(query).graph_scores.items@).len() == old(query).graph_scores.items@.len());
}

/// A hybrid answer hands on the fused hits, and reports the last round's vector search,
/// the work of all rounds and the lists of its last round.
pub proof fn lemma_a_hybrid_answer_holds_the_fused_hits(
    search: &HybridSearch,
    work: HybridWork,
    vector: SearchOutcome,
    expansions: Vec<LexicalExpansion>,
    fused: FusionOutcome,
    round: &HybridRound,
    buffers: &HybridRoundBuffers,
    k: usize,
    elapsed: u128,
    outcome: StoreHybridSearchOutcome,
)
    requires
        call_ensures(
            HybridSearch::finish_hybrid,
            (search, work, vector, expansions, fused, round, buffers, k, elapsed),
            outcome,
        ),
    ensures
        outcome.hits@ == fused.hits@,
        outcome.lexical_expansions@ == expansions@,
        outcome.generation == vector.generation,
        outcome.diagnostics.returned == fused.hits@.len(),
        outcome.diagnostics.requested_k == k,
        outcome.diagnostics.plan@ == vector.diagnostics.plan@,
        outcome.diagnostics.approximate == vector.diagnostics.approximate,
        outcome.diagnostics.exact_rescore == vector.diagnostics.exact_rescore,
        outcome.diagnostics.indexed_through_seq == vector.diagnostics.indexed_through_seq,
        outcome.diagnostics.scan == work.scan,
        outcome.diagnostics.graph == work.graph,
        outcome.diagnostics.lexical == work.lexical,
        outcome.diagnostics.report.rounds == search.rounds,
        outcome.diagnostics.hybrid.window == search.width,
        outcome.diagnostics.hybrid.cross_filled_vector == round.cross_filled_vector,
        outcome.diagnostics.hybrid.cross_filled_lexical == round.cross_filled_lexical,
        outcome.diagnostics.epoch == vector.epoch,
        outcome.diagnostics.elapsed == elapsed,
{
}

/// Behind the texts of an answer its rows are the same, and the work of the texts is
/// reported; a stop answers with nothing.
pub proof fn lemma_texts_leave_the_answer_as_it_is(
    outcome: SearchOutcome,
    materializer: &QueryMaterializer,
    flags: &mut StopFlags,
    now: u128,
    result: Result<SearchOutcome, QueryError>,
)
    requires
        call_ensures(Store::search_with_text, (outcome, materializer, flags, now), result),
    ensures
        result matches Ok(answer) ==> {
            &&& answer.candidates@ == outcome.candidates@
            &&& answer.generation == outcome.generation
            &&& answer.diagnostics.returned == outcome.diagnostics.returned
            &&& answer.diagnostics.plan@ == outcome.diagnostics.plan@
            &&& answer.diagnostics.materialization == Some(materializer.counts)
        },
{
}

proof fn lemma_read_rows_have_their_text(
    segments: Seq<SegmentFacts>,
    active: ActiveFacts,
    sources: Seq<StructuredLexicalSource>,
    docs: Seq<GlobalDocId>,
    unread: Option<UnreadRow>,
)
    ensures
        rows_read(segments, active, sources, docs, unread) is Ok ==> forall|i: int|
            0 <= i < docs.len() ==> names_a_source(segments, sources, #[trigger] docs[i])
                && pinned_document(segments, active, sources, docs[i]) is Some,
    decreases docs.len(),
{
    if docs.len() > 0 {
        let rest = docs.drop_last();
        lemma_read_rows_have_their_text(segments, active, sources, rest, unread);
        lemma_a_hit_reads_its_own_row(
            segments,
            active,
            sources,
            docs.last(),
            crate::corpus::unread_row_at(unread, docs.len() - 1),
        );
        if rows_read(segments, active, sources, docs, unread) is Ok {
            assert forall|i: int| 0 <= i < docs.len() implies names_a_source(
                segments,
                sources,
                #[trigger] docs[i],
            ) && pinned_document(segments, active, sources, docs[i]) is Some by {
                if i < rest.len() {
                    assert(rest[i] == docs[i]);
                }
            }
        }
    }
}

/// Rows that were read without a fault each belong to a source, and each has its
/// document.
pub proof fn lemma_every_gathered_row_is_read(
    segments: &Vec<SegmentFacts>,
    active: &ActiveFacts,
    sources: &Vec<StructuredLexicalSource>,
    list: &Vec<DocAggregate>,
    unread: Option<UnreadRow>,
    result: Result<(), StoreLexicalError>,
    i: int,
)
    requires
        call_ensures(read_rows, (segments, active, sources, list, unread), result),
        0 <= i < list@.len(),
        result is Ok,
    ensures
        names_a_source(segments@, sources@, list@[i].doc),
        pinned_document(segments@, *active, sources@, list@[i].doc) is Some,
{
    lemma_read_rows_have_their_text(segments@, *active, sources@, docs_of(list@), unread);
    assert(docs_of(list@)[i] == list@[i].doc);
}

/// A text that is read under another document is the one that the row stores under that
/// very document.
pub proof fn lemma_a_row_is_read_under_the_named_document<S: StopSource>(
    materializer: &mut QueryMaterializer,
    segments: &Vec<SegmentFacts>,
    active: &ActiveFacts,
    address: Result<ResultAddress, MaterializationError>,
    document: Option<DocumentVersion>,
    read: Result<(), StoreError>,
    denied: bool,
    poll: &mut StopPoll<S>,
    result: Result<MaterializedRow, MaterializationError>,
)
    requires
        call_ensures(
            QueryMaterializer::text_with_test_document::<S>,
            (materializer, segments, active, address, document, read, denied, poll),
            result,
        ),
        result is Ok,
    ensures
        ({
            let row = result->Ok_0;
            &&& address matches Ok(place) && place.row_id == row.row_id
            &&& document == Some(row.document)
            &&& row_holds(segments@, *active, row.row_id, row.document, row.text@)
        }),
{
    let place = ResultAddress { document, ..address->Ok_0 };
    lemma_address_text(segments@, *active, place);
    assert(old(materializer).answers(
        segments@,
        *active,
        Ok(place),
        read,
        denied,
        result,
        *final(materializer),
    ));
    assert(read is Ok);
    assert(old(materializer).request_failure(segments@, *active, place, read, denied) is None);
}

/// A row passes a phrase exactly where its text was found to hold it, and every row
/// passes where none is asked for.
pub proof fn lemma_a_row_passes_the_phrase_it_holds(
    phrase: &mut PhraseEligibility,
    accounting: &mut Accounting,
    read: Result<bool, PhraseReadError>,
    result: Result<bool, QueryError>,
)
    requires
        call_ensures(PhraseEligibility::matches, (phrase, accounting, read), result),
    ensures
        old(phrase).phrase is None ==> result == Ok::<bool, QueryError>(true),
        old(phrase).phrase is Some ==> (result matches Ok(found) ==> read == Ok::<
            bool,
            PhraseReadError,
        >(found)),
        final(phrase).phrase == old(phrase).phrase,
{
}

/// A query is expanded to what its vocabulary gives, and fails where it needs one that
/// could not be had.
pub proof fn lemma_a_query_is_expanded_as_it_was_found(
    needs: bool,
    vocabulary: Result<(), QueryError>,
    expanded: Result<Vec<LexicalExpansion>, ExpansionError>,
    result: Result<Vec<LexicalExpansion>, ExpansionError>,
)
    requires
        call_ensures(expand, (needs, vocabulary, expanded), result),
    ensures
        result is Ok <==> expanded is Ok && (needs ==> vocabulary is Ok),
        result is Ok ==> result->Ok_0@ == expanded->Ok_0@,
{
}

} // verus!
