//! When the steps of a query succeed, in terms of what they were given.

use crate::accounting::Accounting;
use crate::candidates::GraphSearchStats;
use crate::candidates::LexicalHit;
use crate::candidates::ScanCandidate;
use crate::candidates::ScanOutcome;
use crate::candidates::ScanStats;
use crate::candidates::SearchCandidate;
use crate::candidates::SearchCounters;
use crate::candidates::StructuredLexicalSource;
use crate::control::StopFlags;
use crate::control::StopState;
use crate::corpus::ActiveFacts;
use crate::corpus::SegmentFacts;
use crate::corpus::UnreadRow;
use crate::cross_lexical::cross_score_lexical;
use crate::cross_lexical::first_unscored;
use crate::cross_lexical::structured_cross_scores;
use crate::cross_lexical::BatchScores;
use crate::cross_lexical::RoutedRow;
use crate::cross_score::CrossScoreCache;
use crate::error::QueryError;
use crate::error::ScanError;
use crate::error::StoreError;
use crate::exhaustive::first_bad_score;
use crate::exhaustive::live_row_indices;
use crate::exhaustive::rank_rescored;
use crate::exhaustive::RescoredHit;
use crate::fusion::FusionError;
use crate::hybrid::HybridRoundBuffers;
use crate::ids::DocumentVersion;
use crate::ids::RowSource;
use crate::ids::SegmentId;
use crate::legs::ExactLexicalLeg;
use crate::legs::StructuredLeg;
use crate::legs::TermLeg;
use crate::lexical::ControlledSearchError;
use crate::lexical::ScoredDoc;
use crate::lexical::StoreLexicalError;
use crate::lexical_laws::lemma_a_hit_reads_its_own_row;
use crate::lexical_laws::lemma_a_hit_stands_for_its_row;
use crate::lexical_laws::lemma_a_leg_keeps_its_hits;
use crate::lexical_laws::lemma_ranked_documents_keep_their_scores;
use crate::lexical_laws::lemma_ranked_gathered;
use crate::lexical_laws::names_a_source;
use crate::lexical_laws::pinned_document;
use crate::lexical_search::find_documents;
use crate::lexical_search::found_documents;
use crate::lexical_search::LexicalResult;
use crate::lexical_search::LexicalSearch;
use crate::lexical_search::ScoredList;
use crate::lexical_search::Snippet;
use crate::lexical_search::StoreLexicalSearchOutcome;
use crate::lexical_search::StoreStructuredLexicalSearchOutcome;
use crate::lexical_search::StructuredSearch;
use crate::materialize::MaterializationError;
use crate::materialize::QueryMaterializer;
use crate::materialize::ResultAddress;
use crate::observations::HybridScoreObserver;
use crate::poll::StopPoll;
use crate::poll::StopSource;
use crate::pool::RowRange;
use crate::rank::best;
use crate::rank::ranked;
use crate::rescored_scan::complete_rescoring;
use crate::rescored_scan::first_unreadable;
use crate::rescored_scan::select_rows;
use crate::rescored_scan::unnarrowed;
use crate::rescored_scan::ExactScore;
use crate::rescored_scan::Rescored;
use crate::rescored_scan::ScanRescoreOptions;
use crate::round::build_round;
use crate::round::HybridAnchors;
use crate::round::HybridRound;
use crate::round::RoundPlan;
use crate::score::Double;
use crate::score::Score;
use crate::search::candidate_bytes;
use crate::search::hit_failure;
use crate::search::live_hits;
use crate::search::merge_store_outcome;
use crate::search::GraphHit;
use crate::search::SearchTotals;
use crate::search::SegmentGraphResult;
use crate::store::Store;
use crate::structured::admitted;
use crate::structured::docs_of;
use crate::structured::scored_docs;
use crate::text_laws::row_holds;
use crate::vector_search::SearchClosing;
use crate::vector_search::SearchOutcome;
use crate::vector_search::VectorSearch;
use vstd::prelude::*;

verus! {

/// Whether the totals of a search can take in a scan: its work can be counted, its rows
/// addressed and held.
pub open spec fn can_take(totals: SearchTotals, outcome: ScanOutcome) -> bool {
    &&& totals.dims_touched + outcome.stats.dims_touched <= u64::MAX
    &&& totals.bytes_read + outcome.stats.bytes_read <= u64::MAX
    &&& outcome.candidates@.len() * candidate_bytes() <= u64::MAX
    &&& forall|i: int|
        0 <= i < outcome.candidates@.len() ==> (#[trigger] outcome.candidates@[i]).row_id
            <= u32::MAX
}

/// A scan is taken in wherever it can be, memory was not refused and every document was
/// read.
pub proof fn lemma_a_scan_is_taken_in(
    totals: &mut SearchTotals,
    outcome: &ScanOutcome,
    source: RowSource,
    documents: &Vec<Option<DocumentVersion>>,
    exact_score: bool,
    result: Result<(), QueryError>,
)
    requires
        call_ensures(
            merge_store_outcome,
            (totals, outcome, source, documents, None, exact_score, false),
            result,
        ),
    ensures
        can_take(*old(totals), *outcome) ==> result is Ok,
{
}

/// The scan of the active segment is accepted wherever it can be taken in.
pub proof fn lemma_an_active_scan_is_accepted(
    search: &mut VectorSearch,
    segments: &Vec<SegmentFacts>,
    active: &ActiveFacts,
    outcome: &ScanOutcome,
    result: Result<(), QueryError>,
)
    requires
        call_ensures(
            VectorSearch::accept_active,
            (search, segments, active, outcome, false),
            result,
        ),
    ensures
        can_take(old(search).totals, *outcome) ==> result is Ok,
{
}

/// The scan of a sealed segment is accepted wherever it can be taken in and its
/// documents were read.
pub proof fn lemma_a_sealed_scan_is_accepted(
    search: &mut VectorSearch,
    segments: &Vec<SegmentFacts>,
    outcome: &ScanOutcome,
    min_rows: u32,
    result: Result<(), QueryError>,
)
    requires
        call_ensures(
            VectorSearch::accept_scan,
            (search, segments, outcome, min_rows, None, false),
            result,
        ),
    ensures
        can_take(old(search).totals, *outcome) ==> result is Ok,
{
}

proof fn lemma_finite_hits_do_not_fail(hits: Seq<GraphHit>, alive: Seq<bool>, at: nat)
    requires
        forall|i: int| 0 <= i < hits.len() ==> (#[trigger] hits[i]).score.spec_is_finite(),
    ensures
        hit_failure(hits, alive, None, at) is None,
    decreases hits.len() - at,
{
    if at < hits.len() {
        assert(hits[at as int].score.spec_is_finite());
        lemma_finite_hits_do_not_fail(hits, alive, at + 1);
    }
}

/// Whether two sets of traversal counters can be added.
pub open spec fn can_add(left: GraphSearchStats, right: GraphSearchStats) -> bool {
    &&& left.segments_traversed + right.segments_traversed <= usize::MAX
    &&& left.graph_validations + right.graph_validations <= usize::MAX
    &&& left.entry_seed_discoveries + right.entry_seed_discoveries <= usize::MAX
    &&& left.visited_epoch_clears + right.visited_epoch_clears <= usize::MAX
    &&& left.candidates_scored + right.candidates_scored <= usize::MAX
    &&& left.candidates_rescored + right.candidates_rescored <= usize::MAX
    &&& left.segments_pruned_by_bound + right.segments_pruned_by_bound <= usize::MAX
}

/// A traversal is accepted wherever its work can be counted, its rows held and its
/// distances are finite; a segment that was ruled out wherever its work can be counted.
pub proof fn lemma_a_traversal_is_accepted(
    search: &mut VectorSearch,
    segments: &Vec<SegmentFacts>,
    graph: SegmentGraphResult,
    result: Result<(), QueryError>,
)
    requires
        call_ensures(VectorSearch::accept_graph, (search, segments, graph, None, false), result),
    ensures
        graph matches SegmentGraphResult::Pruned { graph_stats, .. } ==> (can_add(
            old(search).totals.graph_stats,
            graph_stats,
        ) ==> result is Ok),
        graph matches SegmentGraphResult::Traversed {
            hits,
            dims_touched,
            bytes_read,
            graph_stats,
            ..
        } ==> ({
            &&& can_add(old(search).totals.graph_stats, graph_stats)
            &&& old(search).totals.dims_touched + dims_touched <= u64::MAX
            &&& old(search).totals.bytes_read + bytes_read <= u64::MAX
            &&& hits@.len() * candidate_bytes() <= u64::MAX
            &&& forall|i: int| 0 <= i < hits@.len() ==> (#[trigger] hits@[i]).score.spec_is_finite()
        } ==> result is Ok),
{
    if let SegmentGraphResult::Traversed { hits, .. } = graph {
        let alive = old(search).current(segments@).alive@;
        if forall|i: int| 0 <= i < hits@.len() ==> (#[trigger] hits@[i]).score.spec_is_finite() {
            lemma_finite_hits_do_not_fail(hits@, alive, 0);
        }
        hits@.lemma_filter_len(
            |hit: GraphHit| crate::corpus::alive_at(alive, hit.row_id as nat),
        );
        let (live, all, size) = (live_hits(hits@, alive).len(), hits@.len(), candidate_bytes());
        assert(live * size <= all * size) by (nonlinear_arith)
            requires
                live <= all,
        ;
    }
}

/// A search that is done is answered wherever it was recorded and its ceiling was found.
pub proof fn lemma_a_done_search_is_answered(
    search: VectorSearch,
    segments: &Vec<SegmentFacts>,
    active: &ActiveFacts,
    closing: SearchClosing,
    result: Result<SearchOutcome, QueryError>,
)
    requires
        call_ensures(VectorSearch::finish, (search, segments, active, closing), result),
    ensures
        result is Ok <==> closing.recorded is Ok && closing.ceiling is Ok,
{
}

/// Whether every hit of a list names a source, and its row is pinned for a document.
pub open spec fn all_pinned(
    segments: Seq<SegmentFacts>,
    active: ActiveFacts,
    sources: Seq<StructuredLexicalSource>,
    hits: Seq<ScoredDoc>,
) -> bool {
    forall|i: int|
        0 <= i < hits.len() ==> names_a_source(segments, sources, (#[trigger] hits[i]).doc)
            && pinned_document(segments, active, sources, hits[i].doc) is Some
}

proof fn lemma_pinned_hits_are_found(
    segments: Seq<SegmentFacts>,
    active: ActiveFacts,
    sources: Seq<StructuredLexicalSource>,
    hits: Seq<ScoredDoc>,
)
    requires
        all_pinned(segments, active, sources, hits),
    ensures
        found_documents(segments, active, sources, hits, None) is Ok,
    decreases hits.len(),
{
    if hits.len() > 0 {
        let rest = hits.drop_last();
        assert forall|i: int| 0 <= i < rest.len() implies names_a_source(
            segments,
            sources,
            (#[trigger] rest[i]).doc,
        ) && pinned_document(segments, active, sources, rest[i].doc) is Some by {
            assert(rest[i] == hits[i]);
        }
        lemma_pinned_hits_are_found(segments, active, sources, rest);
        assert(hits[hits.len() - 1] == hits.last());
        lemma_a_hit_stands_for_its_row(segments, active, sources, hits.last().doc, true, None);
    }
}

/// The documents of hits are found wherever every hit's row is pinned for one.
pub proof fn lemma_pinned_documents_are_found(
    segments: &Vec<SegmentFacts>,
    active: &ActiveFacts,
    sources: &Vec<StructuredLexicalSource>,
    hits: &Vec<ScoredDoc>,
    result: Result<Vec<LexicalResult>, StoreLexicalError>,
)
    requires
        call_ensures(find_documents, (segments, active, sources, hits, None), result),
    ensures
        all_pinned(segments@, *active, sources@, hits@) ==> result is Ok,
{
    if all_pinned(segments@, *active, sources@, hits@) {
        lemma_pinned_hits_are_found(segments@, *active, sources@, hits@);
    }
}

/// Whether the board shows no stop of a query: neither its lease nor its own flag.
pub open spec fn runs_on(flags: Seq<StopState>, lease_flag: usize, own_flag: usize) -> bool {
    &&& lease_flag < flags.len() ==> flags[lease_flag as int] == StopState::Active
    &&& own_flag < flags.len() ==> flags[own_flag as int] == StopState::Active
}

/// A lexical query is answered wherever the engine answered, nothing stopped it and
/// every hit's row is pinned for a document.
pub proof fn lemma_a_lexical_query_is_answered(
    store: &mut Store,
    search: LexicalSearch,
    flags: &mut StopFlags,
    segments: &Vec<SegmentFacts>,
    active: &ActiveFacts,
    k: usize,
    searched: Result<ScoredList, ControlledSearchError>,
    now: u128,
    elapsed: u128,
    result: Result<StoreLexicalSearchOutcome, StoreLexicalError>,
)
    requires
        call_ensures(
            Store::finish_lexical,
            (store, search, flags, segments, active, k, searched, now, None, elapsed),
            result,
        ),
        searched is Ok,
        all_pinned(segments@, *active, search.sources@, searched->Ok_0.hits@),
        runs_on(
            final(flags)@,
            search.cancellation.lease_flag,
            search.cancellation.control.spec_flag(),
        ),
    ensures
        result is Ok,
{
    lemma_pinned_hits_are_found(segments@, *active, search.sources@, searched->Ok_0.hits@);
}

/// A structured query is answered wherever nothing stopped it.
pub proof fn lemma_a_structured_query_is_answered(
    store: &mut Store,
    search: StructuredSearch,
    flags: &mut StopFlags,
    active: &ActiveFacts,
    k: usize,
    now: u128,
    elapsed: u128,
    result: Result<StoreStructuredLexicalSearchOutcome, StoreLexicalError>,
)
    requires
        call_ensures(
            Store::finish_structured,
            (store, search, flags, active, k, now, elapsed),
            result,
        ),
        runs_on(
            final(flags)@,
            search.cancellation.lease_flag,
            search.cancellation.control.spec_flag(),
        ),
    ensures
        result is Ok,
{
}

/// A query without a phrase is always ranked.
pub proof fn lemma_a_query_without_a_phrase_is_ranked(
    search: &mut StructuredSearch,
    segments: &Vec<SegmentFacts>,
    active: &ActiveFacts,
    scores: &Vec<Double>,
    unread: Option<UnreadRow>,
    k: usize,
    result: Result<(), StoreLexicalError>,
)
    requires
        call_ensures(
            StructuredSearch::rank,
            (search, segments, active, scores, None, unread, k),
            result,
        ),
    ensures
        result is Ok,
{
}

/// A hit is explained wherever nothing stopped the query, its row stores a text under a
/// document, and a snippet of that text was found.
pub proof fn lemma_a_hit_with_a_text_is_explained(
    search: &mut StructuredSearch,
    flags: &mut StopFlags,
    segments: &Vec<SegmentFacts>,
    active: &ActiveFacts,
    now: u128,
    found: Result<Option<Snippet>, StoreLexicalError>,
    result: Result<(), StoreLexicalError>,
)
    requires
        call_ensures(
            StructuredSearch::explain_next,
            (search, flags, segments, active, now, None, found),
            result,
        ),
        runs_on(
            final(flags)@,
            old(search).cancellation.lease_flag,
            old(search).cancellation.control.spec_flag(),
        ),
        found matches Ok(Some(snippet)) && snippet.text is Some,
        ({
            let doc = old(search).ranked@[old(search).candidates@.len() as int].doc;
            &&& names_a_source(segments@, old(search).sources@, doc)
            &&& pinned_document(segments@, *active, old(search).sources@, doc) is Some
            &&& match old(search).sources@[doc.segment as int] {
                StructuredLexicalSource::Sealed(ordinal) =>
                    segments@[ordinal as int].texts matches Some(texts) && doc.row < texts@.len()
                    && texts@[doc.row as int] is Some,
                StructuredLexicalSource::Active => doc.row < active.texts@.len()
                    && active.texts@[doc.row as int] is Some,
            }
        }),
    ensures
        result is Ok,
{
    let doc = old(search).ranked@[old(search).candidates@.len() as int].doc;
    lemma_a_hit_reads_its_own_row(segments@, *active, old(search).sources@, doc, None);
}

/// A plain leg answers wherever the engine did and every hit names a source.
pub proof fn lemma_a_term_leg_answers(
    leg: TermLeg,
    segments: &Vec<SegmentFacts>,
    active: &ActiveFacts,
    terms: &Vec<String>,
    searched: Result<ScoredList, FusionError>,
    result: Result<ExactLexicalLeg, FusionError>,
)
    requires
        call_ensures(
            TermLeg::exact_lexical_leg,
            (leg, segments, active, terms, searched, None),
            result,
        ),
        searched is Ok,
        forall|i: int|
            0 <= i < searched->Ok_0.hits@.len() ==> names_a_source(
                segments@,
                leg.sources@,
                (#[trigger] searched->Ok_0.hits@[i]).doc,
            ),
    ensures
        result is Ok,
{
    lemma_a_leg_keeps_its_hits(
        segments@,
        *active,
        leg.sources@,
        searched->Ok_0.hits@,
        None,
    );
}

/// Whether some check of a poll found a stop.
pub open spec fn found_a_stop(answers: Seq<Result<(), ScanError>>) -> bool {
    exists|i: int| 0 <= i < answers.len() && (#[trigger] answers[i]) is Err
}

/// Lexical scores of rows that lack one come back wherever every batch was scored and
/// nothing stopped the query.
pub proof fn lemma_scored_batches_come_back<S: StopSource>(
    missing: &Vec<SearchCandidate>,
    batches: &Vec<Vec<RoutedRow>>,
    found: Vec<Result<BatchScores, ControlledSearchError>>,
    inner: &str,
    poll: &mut StopPoll<S>,
    observer: &mut HybridScoreObserver,
    result: Result<(Vec<Double>, SearchCounters), FusionError>,
)
    requires
        call_ensures(
            cross_score_lexical::<S>,
            (missing, batches, found, inner, poll, observer),
            result,
        ),
        found@.len() == batches@.len(),
        forall|o: int| 0 <= o < found@.len() ==> (#[trigger] found@[o]) is Ok,
        forall|o: int, b: int|
            0 <= o < batches@.len() && 0 <= b < batches@[o]@.len() ==> (
            #[trigger] batches@[o]@[b]).position < missing@.len(),
        !found_a_stop(final(poll).answers()),
    ensures
        result is Ok,
{
    if result is Err {
        let after = final(poll).answers();
        if exists|at: int| #[trigger] first_unscored(batches@, found@, missing@.len(), at) {
            let at = choose|at: int| #[trigger]
                first_unscored(batches@, found@, missing@.len(), at);
            assert(found@[at] is Ok);
            assert(crate::cross_lexical::places_fit(
                batches@[at]@,
                found@[at]->Ok_0.scores@,
                missing@.len(),
            ));
        } else if after.len() > 0 {
            assert(after[after.len() - 1] == after.last());
        }
    }
}

/// Structured scores of rows that lack one come back wherever every hit names a source
/// and nothing stopped the query.
pub proof fn lemma_structured_scores_come_back<S: StopSource>(
    segments: &Vec<SegmentId>,
    sources: &Vec<StructuredLexicalSource>,
    hits: &Vec<LexicalHit>,
    missing: &Vec<SearchCandidate>,
    poll: &mut StopPoll<S>,
    result: Result<Vec<Double>, FusionError>,
)
    requires
        call_ensures(
            structured_cross_scores::<S>,
            (segments, sources, hits, missing, poll),
            result,
        ),
        forall|i: int|
            0 <= i < hits@.len() ==> (#[trigger] hits@[i]).doc.segment < sources@.len() && (
            sources@[hits@[i].doc.segment as int] matches StructuredLexicalSource::Sealed(slot)
                ==> slot < segments@.len()),
        !found_a_stop(final(poll).answers()),
    ensures
        result is Ok,
{
    if let Err(error) = result {
        let after = final(poll).answers();
        if crate::round::unresolved(segments@, sources@, hits@, error) {
            let at = choose|at: int|
                crate::round::unresolved_at(segments@, sources@, hits@, at, error);
            assert(crate::round::unresolved_at(segments@, sources@, hits@, at, error));
            assert(hits@[at].doc.segment < sources@.len());
        } else if after.len() > 0 {
            assert(after[after.len() - 1] == after.last());
        }
    }
}

/// Live rows are gathered wherever they can be addressed and nothing stopped the query.
pub proof fn lemma_addressable_rows_are_gathered<S: StopSource>(
    row_count: usize,
    alive: &Vec<bool>,
    poll: &mut StopPoll<S>,
    result: Result<Vec<u32>, QueryError>,
)
    requires
        call_ensures(live_row_indices::<S>, (row_count, alive, poll), result),
        row_count <= 0x1_0000_0000,
        !found_a_stop(final(poll).answers()),
    ensures
        result is Ok,
{
    if result is Err {
        let after = final(poll).answers();
        if after.len() > 0 {
            assert(after[after.len() - 1] == after.last());
        }
    }
}

/// Scored rows are ranked wherever their scores are finite and their work can be
/// counted.
pub proof fn lemma_finite_scores_are_ranked(
    hits: &Vec<RescoredHit>,
    candidates_rescored: usize,
    dimension: usize,
    k: usize,
    thread: u64,
    result: Result<ScanOutcome, QueryError>,
)
    requires
        call_ensures(rank_rescored, (hits, candidates_rescored, dimension, k, thread), result),
        forall|i: int| 0 <= i < hits@.len() ==> (#[trigger] hits@[i]).score.spec_is_finite(),
        candidates_rescored * dimension * 4 <= u64::MAX,
    ensures
        result is Ok,
{
    if exists|at: int| #[trigger] first_bad_score(hits@, at) {
        let at = choose|at: int| #[trigger] first_bad_score(hits@, at);
        assert(hits@[at].score.spec_is_finite());
    }
}

/// The rows of candidates are selected wherever the values are whole rows that hold every
/// candidate, there is room, the limit allows it and nothing stopped the query.
pub proof fn lemma_rows_within_the_values_are_selected<S: StopSource>(
    options: ScanRescoreOptions,
    candidates: &Vec<ScanCandidate>,
    values: usize,
    dimension: usize,
    poll: &mut StopPoll<S>,
    result: Result<Vec<RowRange>, QueryError>,
)
    requires
        call_ensures(
            select_rows::<S>,
            (options, candidates, values, dimension, Ok::<(), StoreError>(()), poll),
            result,
        ),
        dimension > 0,
        values % dimension == 0,
        candidates@.len() <= options.spec_maximum(),
        forall|i: int|
            0 <= i < candidates@.len() ==> (#[trigger] candidates@[i]).row_id * dimension
                + dimension <= values,
        !found_a_stop(final(poll).answers()),
    ensures
        result is Ok,
{
    assert(candidates@.len() == candidates.len());
    if result is Err {
        let after = final(poll).answers();
        if exists|at: int| #[trigger] first_unreadable(candidates@, values, dimension, at) {
            let at = choose|at: int| #[trigger]
                first_unreadable(candidates@, values, dimension, at);
            assert(candidates@[at].row_id * dimension + dimension <= values);
        } else if after.len() > 0 {
            assert(after[after.len() - 1] == after.last());
        }
    }
}

proof fn lemma_finite_scores_can_be_narrowed(
    candidates: Seq<ScanCandidate>,
    scores: Seq<ExactScore>,
    n: nat,
)
    requires
        n <= scores.len(),
        forall|i: int| 0 <= i < scores.len() ==> (#[trigger] scores[i]).narrowed.spec_is_finite(),
    ensures
        unnarrowed(candidates, scores, n) is None,
    decreases n,
{
    if n > 0 {
        lemma_finite_scores_can_be_narrowed(candidates, scores, (n - 1) as nat);
        assert(scores[n - 1].narrowed.spec_is_finite());
    }
}

/// A rescoring ends well wherever its scores are finite, no more than its rows, its work
/// can be counted and there is room.
pub proof fn lemma_finite_scores_complete_a_rescoring(
    candidates: &mut Vec<ScanCandidate>,
    stats: &mut ScanStats,
    scores: &Vec<ExactScore>,
    dimension: usize,
    k: usize,
    eligible: u64,
    caller: u64,
    result: Result<Rescored, QueryError>,
)
    requires
        call_ensures(
            complete_rescoring,
            (
                candidates,
                stats,
                scores,
                dimension,
                k,
                eligible,
                caller,
                Ok::<(), StoreError>(()),
            ),
            result,
        ),
        scores@.len() <= old(candidates)@.len(),
        forall|i: int| 0 <= i < scores@.len() ==> (#[trigger] scores@[i]).narrowed.spec_is_finite(),
        old(stats).dims_touched + scores@.len() * dimension <= u64::MAX,
        old(stats).bytes_read + scores@.len() * dimension * 4 <= u64::MAX,
    ensures
        result is Ok,
{
    lemma_finite_scores_can_be_narrowed(old(candidates)@, scores@, scores@.len());
}

/// The text at an address is read wherever its row stores one under its document, the
/// row was read and can be copied and counted.
pub proof fn lemma_a_stored_text_is_read(
    materializer: &mut QueryMaterializer,
    segments: &Vec<SegmentFacts>,
    active: &ActiveFacts,
    address: ResultAddress,
    text: Seq<char>,
    result: Result<(DocumentVersion, String), MaterializationError>,
)
    requires
        call_ensures(
            QueryMaterializer::materialize_address,
            (materializer, segments, active, address, Ok::<(), StoreError>(()), false),
            result,
        ),
        address.document is Some,
        row_holds(segments@, *active, address.row_id, address.document->0, text),
        old(materializer).counts.row_lookups < u64::MAX,
        old(materializer).counts.text_copies < u64::MAX,
        old(materializer).counts.text_bytes + crate::materialize::byte_len(text) <= u64::MAX,
    ensures
        result matches Ok(pair) && pair.0 == address.document->0 && pair.1@ == text,
{
    if let RowSource::Sealed(id) = address.row_id.source {
        crate::text_laws::lemma_segment_with_is_the_first(segments@, id, 0);
        let row = address.row_id.local_row as int;
        let at = choose|at: int|
            0 <= at < segments@.len() && #[trigger] crate::text_laws::is_segment(
                segments@,
                id,
                0,
                at,
            ) && {
                let segment = segments@[at];
                &&& row < segment.documents@.len() && segment.documents@[row] == Some(
                    address.document->0,
                )
                &&& segment.texts matches Some(texts) && row < texts@.len() && (
                texts@[row] matches Some(stored) && stored@ == text)
            };
        let found = crate::materialize::segment_with(segments@, id, 0)->0;
        let i = choose|i: int|
            0 <= i < segments@.len() && found == #[trigger] segments@[i]
                && crate::text_laws::is_segment(segments@, id, 0, i);
        if i < at {
            assert(segments@[i].id != id);
        } else if at < i {
            assert(segments@[at].id != id);
        }
    }
}

/// The last round of a query is built wherever it has every score that it asked for and,
/// where it lists vectors, the farthest row.
pub proof fn lemma_a_round_with_its_scores_is_built(
    plan: &RoundPlan,
    segments: &Vec<SegmentId>,
    sources: &Vec<StructuredLexicalSource>,
    vector: &Vec<SearchCandidate>,
    lexical: &Vec<LexicalHit>,
    width: usize,
    anchors: HybridAnchors,
    distances: &Vec<Score>,
    lexical_scores: &Vec<Double>,
    lexical_counters: SearchCounters,
    cache: &mut CrossScoreCache,
    buffers: &mut HybridRoundBuffers,
    accounting: &mut Accounting,
    result: Result<HybridRound, FusionError>,
)
    requires
        call_ensures(
            build_round,
            (
                plan,
                segments,
                sources,
                vector,
                lexical,
                width,
                anchors,
                false,
                distances,
                lexical_scores,
                lexical_counters,
                cache,
                buffers,
                accounting,
            ),
            result,
        ),
        vector@.len() <= width && lexical@.len() <= width,
        lexical_scores@.len() == plan.lexical_needed@.len(),
        anchors.vector_ceiling is Some,
        forall|i: int, j: int|
            0 <= i < j < old(cache).entries.items@.len() ==> (#[trigger] old(
                cache).entries.items@[i]).key != (#[trigger] old(cache).entries.items@[j]).key,
    ensures
        result is Ok,
        *final(accounting) == *old(accounting),
{
}

/// A structured leg without a phrase answers wherever every gathered document names a
/// source.
pub proof fn lemma_a_structured_leg_answers(
    leg: StructuredLeg,
    segments: &Vec<SegmentFacts>,
    active: &ActiveFacts,
    scores: &Vec<Double>,
    unread_row: Option<UnreadRow>,
    words: String,
    result: Result<ExactLexicalLeg, FusionError>,
)
    requires
        call_ensures(
            StructuredLeg::exact_structured_lexical_leg,
            (leg, segments, active, scores, None, unread_row, words, None),
            result,
        ),
        scores@.len() == leg.aggregates@.len(),
        forall|i: int|
            0 <= i < leg.aggregates@.len() ==> names_a_source(
                segments@,
                leg.sources@,
                (#[trigger] leg.aggregates@[i]).doc,
            ),
    ensures
        result is Ok,
{
    let docs = docs_of(leg.aggregates@);
    let list = admitted(docs, scores@, None);
    let hits = best(ranked(list), leg.k as nat);
    let kept = leg.kept(scores@, None);
    assert(scores@.len() == scores.len());
    lemma_ranked_gathered(leg.aggregates@, scores@, None, leg.k as nat);
    lemma_ranked_documents_keep_their_scores(hits);
    assert(kept == scored_docs(hits));
    assert forall|i: int| 0 <= i < kept.len() implies names_a_source(
        segments@,
        leg.sources@,
        (#[trigger] kept[i]).doc,
    ) by {
        assert(kept[i].doc == hits[i].doc);
        assert(hits[i].doc == leg.aggregates@[hits[i].place as int].doc);
    }
    lemma_a_leg_keeps_its_hits(segments@, *active, leg.sources@, kept, None);
}

} // verus!
