//! Lexical queries of a store, from admission to the documents they return.

use crate::candidates::accumulate_search_counters;
use crate::candidates::SearchCounters;
use crate::candidates::StructuredLexicalSource;
use crate::control::QueryCancellation;
use crate::control::QueryControl;
use crate::control::StopFlags;
use crate::control::StopState;
use crate::corpus::take_unread;
use crate::corpus::take_unread_row;
use crate::corpus::unread_at;
use crate::corpus::unread_row_at;
use crate::corpus::ActiveFacts;
use crate::corpus::RowFault;
use crate::corpus::SegmentFacts;
use crate::corpus::UnreadDocument;
use crate::corpus::UnreadRow;
use crate::error::QueryError;
use crate::error::ScanError;
use crate::error::StoreError;
use crate::ids::DocumentVersion;
use crate::ids::GlobalDocId;
use crate::lexical::assemble_lexical_index;
use crate::lexical::assembly;
use crate::lexical::controlled_failure;
use crate::lexical::hit_document;
use crate::lexical::map_store_controlled_lexical_error;
use crate::lexical::map_store_lexical_assembly_error;
use crate::lexical::map_store_lexical_document_error;
use crate::lexical::row_facts;
use crate::lexical::structured_lexical_document;
use crate::lexical::structured_lexical_row;
use crate::lexical::ControlledSearchError;
use crate::lexical::LexicalAssemblyError;
use crate::lexical::LexicalDocumentError;
use crate::lexical::LexicalExpansion;
use crate::lexical::ScoredDoc;
use crate::lexical::StoreLexicalError;
use crate::lexical::UnopenedSource;
use crate::materialize::MaterializationCounters;
use crate::rank::best;
use crate::rank::lemma_permutation_keeps_members;
use crate::rank::lemma_ranked_is_permutation;
use crate::rank::ranked;
use crate::score::Double;
use crate::snapshot::SnapshotLease;
use crate::store::Store;
use crate::structured::admitted;
use crate::structured::aggregate_hits;
use crate::structured::docs_of;
use crate::structured::given;
use crate::structured::is_number;
use crate::structured::lists;
use crate::structured::rank_structured;
use crate::structured::totals_of;
use crate::structured::with_hits;
use crate::structured::Contribution;
use crate::structured::DocAggregate;
use crate::structured::RankedDoc;
use vstd::prelude::*;

verus! {

/// One lexical hit with its document.
#[derive(Clone, Copy, Debug, PartialEq, Eq, Structural)]
pub struct LexicalResult {
    pub document: DocumentVersion,
    pub score: Double,
}

/// What a lexical query reports of itself.
#[derive(Clone, Copy, Debug, PartialEq, Eq, Structural)]
pub struct LexicalDiagnostics {
    pub snapshot_generation: u64,
    pub indexed_through_seq: u64,
    pub requested_k: usize,
    pub returned: usize,
    pub counters: SearchCounters,
    /// What the text of the hits took, where the caller asked for it.
    pub materialization: Option<MaterializationCounters>,
    /// Nanoseconds.
    pub elapsed: u128,
}

/// Outcome of a plain lexical query.
#[derive(Debug)]
pub struct StoreLexicalSearchOutcome {
    pub candidates: Vec<LexicalResult>,
    pub generation: u64,
    pub diagnostics: LexicalDiagnostics,
}

/// The later of two log positions.
pub open spec fn later(left: u64, right: u64) -> u64 {
    if left < right {
        right
    } else {
        left
    }
}

/// An assembly failure at the store's surface.
pub open spec fn assembly_failure(error: LexicalAssemblyError) -> StoreLexicalError {
    match error {
        LexicalAssemblyError::Store(store) => StoreLexicalError::Query(QueryError::Store(store)),
        LexicalAssemblyError::Lexical(text) => StoreLexicalError::Filter(text),
        LexicalAssemblyError::MissingDocumentIdentity(segment_id) =>
            StoreLexicalError::MissingDocumentIdentity { segment_id },
        LexicalAssemblyError::Cancelled(scan) => StoreLexicalError::Query(QueryError::Scan(scan)),
    }
}

/// A join failure at the store's surface.
pub open spec fn document_failure(error: LexicalDocumentError) -> StoreLexicalError {
    match error {
        LexicalDocumentError::Segment(segment) => StoreLexicalError::Query(
            QueryError::Store(StoreError::Segment(segment)),
        ),
        LexicalDocumentError::MissingDocumentIdentity(segment_id) =>
            StoreLexicalError::MissingDocumentIdentity { segment_id },
        _ => StoreLexicalError::Query(QueryError::Store(StoreError::ActiveRowOverflow)),
    }
}

/// The documents of hits, in order, or the failure of the first without one.
pub open spec fn found_documents(
    segments: Seq<SegmentFacts>,
    active: ActiveFacts,
    sources: Seq<StructuredLexicalSource>,
    hits: Seq<ScoredDoc>,
    unread: Option<UnreadDocument>,
) -> Result<Seq<LexicalResult>, StoreLexicalError>
    decreases hits.len(),
{
    if hits.len() == 0 {
        Ok(Seq::empty())
    } else {
        match found_documents(segments, active, sources, hits.drop_last(), unread) {
            Err(error) => Err(error),
            Ok(found) => match hit_document(
                segments,
                active,
                sources,
                hits.last().doc,
                true,
                unread_at(unread, hits.len() - 1),
            ) {
                Err(error) => Err(document_failure(error)),
                Ok(None) => Err(
                    StoreLexicalError::Query(QueryError::Store(StoreError::ActiveRowOverflow)),
                ),
                Ok(Some(document)) => Ok(
                    found.push(LexicalResult { document, score: hits.last().score }),
                ),
            },
        }
    }
}

proof fn lemma_found_failure_sticks(
    segments: Seq<SegmentFacts>,
    active: ActiveFacts,
    sources: Seq<StructuredLexicalSource>,
    hits: Seq<ScoredDoc>,
    unread: Option<UnreadDocument>,
    n: int,
)
    requires
        0 <= n <= hits.len(),
        found_documents(segments, active, sources, hits.take(n), unread) is Err,
    ensures
        found_documents(segments, active, sources, hits, unread) == found_documents(
            segments,
            active,
            sources,
            hits.take(n),
            unread,
        ),
    decreases hits.len() - n,
{
    if n < hits.len() {
        assert(hits.take(n + 1).drop_last() == hits.take(n));
        lemma_found_failure_sticks(segments, active, sources, hits, unread, n + 1);
    } else {
        assert(hits.take(n) == hits);
    }
}

/// Joins every hit with its document, which it must have; `unread` is the first
/// document that could not be read, where there is one.
pub fn find_documents(
    segments: &Vec<SegmentFacts>,
    active: &ActiveFacts,
    sources: &Vec<StructuredLexicalSource>,
    hits: &Vec<ScoredDoc>,
    unread: Option<UnreadDocument>,
) -> (result: Result<Vec<LexicalResult>, StoreLexicalError>)
    ensures
        match result {
            Ok(found) => found_documents(segments@, *active, sources@, hits@, unread) == Ok::<
                Seq<LexicalResult>,
                StoreLexicalError,
            >(found@),
            Err(error) => found_documents(segments@, *active, sources@, hits@, unread) == Err::<
                Seq<LexicalResult>,
                StoreLexicalError,
            >(error),
        },
{
    let mut found: Vec<LexicalResult> = Vec::with_capacity(hits.len());
    let ghost whole = unread;
    let mut pending = unread;
    let mut at: usize = 0;
    while at < hits.len()
        invariant
            at <= hits@.len(),
            whole == unread,
            forall|i: int| i >= at ==> unread_at(pending, i) == #[trigger] unread_at(whole, i),
            found_documents(segments@, *active, sources@, hits@.take(at as int), whole) == Ok::<
                Seq<LexicalResult>,
                StoreLexicalError,
            >(found@),
        decreases hits.len() - at,
    {
        let ghost prefix = hits@.take(at + 1);
        assert(prefix.drop_last() == hits@.take(at as int));
        assert(prefix.last() == hits@[at as int]);
        let hit = hits[at];
        assert(unread_at(pending, at as int) == unread_at(whole, at as int));
        let fault = take_unread(&mut pending, at);
        let error = match structured_lexical_document(
            segments,
            active,
            sources,
            hit.doc,
            true,
            fault,
        ) {
            Ok(Some(document)) => {
                found.push(LexicalResult { document, score: hit.score });
                at = at + 1;
                continue;
            },
            Ok(None) => StoreLexicalError::Query(QueryError::Store(StoreError::ActiveRowOverflow)),
            Err(error) => map_store_lexical_document_error(error),
        };
        proof {
            lemma_found_failure_sticks(segments@, *active, sources@, hits@, whole, at + 1);
        }
        return Err(error);
    }
    assert(hits@.take(at as int) == hits@);
    Ok(found)
}

/// A lexical query that was admitted and whose sources are put together.
#[derive(Debug)]
pub struct LexicalSearch {
    pub lease: SnapshotLease,
    /// Log position that the pinned snapshot holds.
    pub absorbed_through: u64,
    pub cancellation: QueryCancellation,
    pub sources: Vec<StructuredLexicalSource>,
}

/// What beginning a lexical query comes to: the handle's answer, then the stop
/// check, then the sources.
pub open spec fn lexical_beginning(
    store: Store,
    flags: Seq<StopState>,
    control: QueryControl,
    segments: Seq<SegmentFacts>,
    active: ActiveFacts,
    checks: Seq<Result<(), ScanError>>,
    unopened: Option<UnopenedSource>,
    now: u128,
) -> Result<(SnapshotLease, Seq<StructuredLexicalSource>), StoreLexicalError> {
    match store.lease_answer() {
        Err(error) => Err(StoreLexicalError::Query(QueryError::Store(error))),
        Ok(lease) => {
            let cancellation = QueryCancellation { control, lease_flag: lease.flag };
            match cancellation.checked(control.looked(flags, now)) {
                Err(error) => Err(StoreLexicalError::Query(QueryError::Scan(error))),
                Ok(_) => match assembly(segments, active, checks, unopened, true) {
                    Err(error) => Err(assembly_failure(error)),
                    Ok(sources) => Ok((lease, sources)),
                },
            }
        },
    }
}

/// What a plain lexical query finds, given what the lexical engine found and the
/// board behind the last stop check.
pub open spec fn found_answer(
    cancellation: QueryCancellation,
    flags: Seq<StopState>,
    segments: Seq<SegmentFacts>,
    active: ActiveFacts,
    sources: Seq<StructuredLexicalSource>,
    searched: Result<Seq<ScoredDoc>, ControlledSearchError>,
    unread: Option<UnreadDocument>,
) -> Result<Seq<LexicalResult>, StoreLexicalError> {
    match searched {
        Err(error) => Err(controlled_failure(error)),
        Ok(hits) => match cancellation.checked(flags) {
            Err(error) => Err(StoreLexicalError::Query(QueryError::Scan(error))),
            Ok(_) => found_documents(segments, active, sources, hits, unread),
        },
    }
}

/// What a lexical query reports of itself: the generation and the log position are
/// those of the snapshot that it was admitted with.
pub open spec fn lexical_report(
    lease: SnapshotLease,
    absorbed_through: u64,
    active: ActiveFacts,
    requested_k: usize,
    returned: usize,
    counters: SearchCounters,
    elapsed: u128,
) -> LexicalDiagnostics {
    LexicalDiagnostics {
        snapshot_generation: lease.generation,
        indexed_through_seq: later(active.indexed_through_seq, absorbed_through),
        requested_k,
        returned,
        counters,
        materialization: None,
        elapsed,
    }
}

fn lexical_diagnostics(
    lease: SnapshotLease,
    absorbed_through: u64,
    active: &ActiveFacts,
    requested_k: usize,
    returned: usize,
    counters: SearchCounters,
    elapsed: u128,
) -> (diagnostics: LexicalDiagnostics)
    ensures
        diagnostics == lexical_report(
            lease,
            absorbed_through,
            *active,
            requested_k,
            returned,
            counters,
            elapsed,
        ),
{
    let indexed_through_seq: u64 = if active.indexed_through_seq < absorbed_through {
        absorbed_through
    } else {
        active.indexed_through_seq
    };
    LexicalDiagnostics {
        snapshot_generation: lease.generation,
        indexed_through_seq,
        requested_k,
        returned,
        counters,
        materialization: None,
        elapsed,
    }
}

/// The board once a lexical query has begun, or was refused.
pub open spec fn begun_board(
    store: Store,
    flags: Seq<StopState>,
    control: QueryControl,
    now: u128,
) -> Seq<StopState> {
    if store.lease_answer() is Ok {
        control.looked(flags, now)
    } else {
        flags
    }
}

/// Hits of one search and the work they took.
#[derive(Debug)]
pub struct ScoredList {
    pub hits: Vec<ScoredDoc>,
    pub counters: SearchCounters,
}

impl Store {
    /// Begins a lexical query at `now`: it counts as in flight until it is
    /// finished; one that cannot begin does not. `unopened` is the first source
    /// that could not be opened, where there is one.
    pub fn begin_lexical(
        &mut self,
        flags: &mut StopFlags,
        control: QueryControl,
        segments: &Vec<SegmentFacts>,
        active: &ActiveFacts,
        checks: &Vec<Result<(), ScanError>>,
        unopened: Option<UnopenedSource>,
        now: u128,
    ) -> (result: Result<LexicalSearch, StoreLexicalError>)
        requires
            control.on_board(old(flags)@),
        ensures
            control.on_board(final(flags)@),
            final(flags)@ == begun_board(*old(self), old(flags)@, control, now),
            match lexical_beginning(
                *old(self),
                old(flags)@,
                control,
                segments@,
                *active,
                checks@,
                unopened,
                now,
            ) {
                Ok((lease, sources)) => {
                    &&& result matches Ok(search) && search.lease == lease
                        && search.absorbed_through == old(self).snapshot->Some_0.absorbed_through
                        && search.cancellation == (QueryCancellation {
                        control,
                        lease_flag: lease.flag,
                    }) && search.sources@ == sources
                    &&& *final(self) == old(self).with_query()
                },
                Err(error) => {
                    &&& result == Err::<LexicalSearch, StoreLexicalError>(error)
                    &&& *final(self) == *old(self)
                },
            },
    {
        let lease = match self.admit_lexical_query() {
            Ok(lease) => lease,
            Err(error) => {
                return Err(StoreLexicalError::Query(error));
            },
        };
        let absorbed_through: u64 = match &self.snapshot {
            Some(snapshot) => snapshot.absorbed_through,
            None => 0,
        };
        let cancellation = QueryCancellation::new(control, lease.flag);
        match cancellation.check_graph(flags, now) {
            Ok(_) => {},
            Err(error) => {
                self.query_finished();
                return Err(StoreLexicalError::Query(QueryError::Scan(error)));
            },
        }
        match assemble_lexical_index(segments, active, true, checks, unopened) {
            Ok(sources) => Ok(LexicalSearch { lease, absorbed_through, cancellation, sources }),
            Err(error) => {
                self.query_finished();
                Err(map_store_lexical_assembly_error(error))
            },
        }
    }

    /// Ends a lexical query that was begun. `searched` is what the lexical engine
    /// found over the assembled sources, or the stop that it met while it scored;
    /// `unread` is the first document that could not be read, where there is one.
    /// The query was admitted, so what became of the handle meanwhile does not
    /// matter.
    pub fn finish_lexical(
        &mut self,
        search: LexicalSearch,
        flags: &mut StopFlags,
        segments: &Vec<SegmentFacts>,
        active: &ActiveFacts,
        k: usize,
        searched: Result<ScoredList, ControlledSearchError>,
        now: u128,
        unread: Option<UnreadDocument>,
        elapsed: u128,
    ) -> (result: Result<StoreLexicalSearchOutcome, StoreLexicalError>)
        requires
            search.cancellation.control.on_board(old(flags)@),
        ensures
            *final(self) == old(self).without_query(),
            final(flags)@ == if searched is Ok {
                search.cancellation.control.looked(old(flags)@, now)
            } else {
                old(flags)@
            },
            match found_answer(
                search.cancellation,
                final(flags)@,
                segments@,
                *active,
                search.sources@,
                match searched {
                    Ok(list) => Ok(list.hits@),
                    Err(error) => Err(error),
                },
                unread,
            ) {
                Err(error) => result == Err::<StoreLexicalSearchOutcome, StoreLexicalError>(error),
                Ok(found) => {
                    &&& result is Ok
                    &&& result->Ok_0.candidates@ == found
                    &&& result->Ok_0.generation == search.lease.generation
                    &&& result->Ok_0.diagnostics == lexical_report(
                        search.lease,
                        search.absorbed_through,
                        *active,
                        k,
                        found.len() as usize,
                        searched->Ok_0.counters,
                        elapsed,
                    )
                },
            },
    {
        self.query_finished();
        let list = match searched {
            Err(error) => {
                return Err(map_store_controlled_lexical_error(error));
            },
            Ok(list) => list,
        };
        match search.cancellation.check_graph(flags, now) {
            Err(error) => {
                return Err(StoreLexicalError::Query(QueryError::Scan(error)));
            },
            Ok(_) => {},
        }
        let candidates = find_documents(segments, active, &search.sources, &list.hits, unread)?;
        let diagnostics = lexical_diagnostics(
            search.lease,
            search.absorbed_through,
            active,
            k,
            candidates.len(),
            list.counters,
            elapsed,
        );
        Ok(
            StoreLexicalSearchOutcome {
                candidates,
                generation: search.lease.generation,
                diagnostics,
            },
        )
    }

    /// Runs a plain lexical query over active and sealed text. `searched` is
    /// what the lexical engine finds over the assembled sources, or the stop that
    /// it met while it scored; the clock shows `before` ahead of it and `after`
    /// behind it. `checks` are the stop checks of the assembly, one per segment,
    /// and `unopened` and `unread` are the first source and the first document
    /// that could not be read.
    pub fn search_lexical(
        &mut self,
        flags: &mut StopFlags,
        control: QueryControl,
        segments: &Vec<SegmentFacts>,
        active: &ActiveFacts,
        k: usize,
        before: u128,
        checks: &Vec<Result<(), ScanError>>,
        unopened: Option<UnopenedSource>,
        searched: Result<ScoredList, ControlledSearchError>,
        after: u128,
        unread: Option<UnreadDocument>,
        elapsed: u128,
    ) -> (result: Result<StoreLexicalSearchOutcome, StoreLexicalError>)
        requires
            control.on_board(old(flags)@),
        ensures
            *final(self) == *old(self),
            ({
                let beginning = lexical_beginning(
                    *old(self),
                    old(flags)@,
                    control,
                    segments@,
                    *active,
                    checks@,
                    unopened,
                    before,
                );
                let begun = begun_board(*old(self), old(flags)@, control, before);
                match beginning {
                    Err(error) => {
                        &&& result == Err::<StoreLexicalSearchOutcome, StoreLexicalError>(error)
                        &&& final(flags)@ == begun
                    },
                    Ok((lease, sources)) => {
                        &&& final(flags)@ == if searched is Ok {
                            control.looked(begun, after)
                        } else {
                            begun
                        }
                        &&& match found_answer(
                            QueryCancellation { control, lease_flag: lease.flag },
                            final(flags)@,
                            segments@,
                            *active,
                            sources,
                            match searched {
                                Ok(list) => Ok(list.hits@),
                                Err(error) => Err(error),
                            },
                            unread,
                        ) {
                            Err(error) => result == Err::<
                                StoreLexicalSearchOutcome,
                                StoreLexicalError,
                            >(error),
                            Ok(found) => {
                                &&& result is Ok
                                &&& result->Ok_0.candidates@ == found
                                &&& result->Ok_0.generation == lease.generation
                                &&& result->Ok_0.diagnostics == lexical_report(
                                    lease,
                                    old(self).snapshot->Some_0.absorbed_through,
                                    *active,
                                    k,
                                    found.len() as usize,
                                    searched->Ok_0.counters,
                                    elapsed,
                                )
                            },
                        }
                    },
                }
            }),
    {
        let search = self.begin_lexical(
            flags,
            control,
            segments,
            active,
            checks,
            unopened,
            before,
        )?;
        self.finish_lexical(search, flags, segments, active, k, searched, after, unread, elapsed)
    }

    /// Begins a structured lexical query; `expanded` holds the terms that it
    /// expands to over the assembled sources. What began is in flight until
    /// `query_finished` is called, however the later steps end.
    pub fn search_lexical_structured(
        &mut self,
        flags: &mut StopFlags,
        control: QueryControl,
        segments: &Vec<SegmentFacts>,
        active: &ActiveFacts,
        checks: &Vec<Result<(), ScanError>>,
        unopened: Option<UnopenedSource>,
        now: u128,
        expanded: Result<Vec<LexicalExpansion>, StoreLexicalError>,
    ) -> (result: Result<StructuredSearch, StoreLexicalError>)
        requires
            control.on_board(old(flags)@),
        ensures
            control.on_board(final(flags)@),
            final(flags)@ == begun_board(*old(self), old(flags)@, control, now),
            match lexical_beginning(
                *old(self),
                old(flags)@,
                control,
                segments@,
                *active,
                checks@,
                unopened,
                now,
            ) {
                Err(error) => {
                    &&& result == Err::<StructuredSearch, StoreLexicalError>(error)
                    &&& *final(self) == *old(self)
                },
                Ok((lease, sources)) => match expanded {
                    Err(error) => {
                        &&& result == Err::<StructuredSearch, StoreLexicalError>(error)
                        &&& *final(self) == *old(self)
                    },
                    Ok(expansions) => {
                        &&& *final(self) == old(self).with_query()
                        &&& result matches Ok(search) && search.lease == lease
                            && search.absorbed_through
                            == old(self).snapshot->Some_0.absorbed_through
                            && search.cancellation == (QueryCancellation {
                            control,
                            lease_flag: lease.flag,
                        }) && search.sources@ == sources && search.expansions@ == expansions@
                            && search.scored@.len() == 0 && search.counters
                            == SearchCounters::spec_zero() && search.aggregates@.len() == 0
                            && search.candidates@.len() == 0 && search.ranked@.len() == 0
                    },
                },
            },
    {
        let begun = self.begin_lexical(
            flags,
            control,
            segments,
            active,
            checks,
            unopened,
            now,
        )?;
        match expanded {
            Err(error) => {
                self.query_finished();
                Err(error)
            },
            Ok(expansions) => Ok(
                StructuredSearch {
                    lease: begun.lease,
                    absorbed_through: begun.absorbed_through,
                    cancellation: begun.cancellation,
                    sources: begun.sources,
                    expansions,
                    scored: Vec::new(),
                    counters: SearchCounters::zero(),
                    aggregates: Vec::new(),
                    ranked: Vec::new(),
                    candidates: Vec::new(),
                },
            ),
        }
    }

    /// Ends a structured query whose ranked hits are all explained. The query was
    /// admitted, so what became of the handle meanwhile does not matter.
    pub fn finish_structured(
        &mut self,
        search: StructuredSearch,
        flags: &mut StopFlags,
        active: &ActiveFacts,
        k: usize,
        now: u128,
        elapsed: u128,
    ) -> (result: Result<StoreStructuredLexicalSearchOutcome, StoreLexicalError>)
        requires
            search.candidates@.len() == search.ranked@.len(),
            search.cancellation.control.on_board(old(flags)@),
        ensures
            final(flags)@ == search.cancellation.control.looked(old(flags)@, now),
            *final(self) == old(self).without_query(),
            match search.cancellation.checked(final(flags)@) {
                Err(error) => result == Err::<
                    StoreStructuredLexicalSearchOutcome,
                    StoreLexicalError,
                >(StoreLexicalError::Query(QueryError::Scan(error))),
                Ok(_) => {
                    &&& result is Ok
                    &&& result->Ok_0.candidates == search.candidates
                    &&& result->Ok_0.expansions == search.expansions
                    &&& result->Ok_0.generation == search.lease.generation
                    &&& result->Ok_0.diagnostics == lexical_report(
                        search.lease,
                        search.absorbed_through,
                        *active,
                        k,
                        search.candidates@.len() as usize,
                        search.counters,
                        elapsed,
                    )
                },
            },
    {
        let stopped = search.cancellation.check_graph(flags, now);
        let diagnostics = lexical_diagnostics(
            search.lease,
            search.absorbed_through,
            active,
            k,
            search.candidates.len(),
            search.counters,
            elapsed,
        );
        self.query_finished();
        match stopped {
            Err(error) => Err(StoreLexicalError::Query(QueryError::Scan(error))),
            Ok(_) => Ok(
                StoreStructuredLexicalSearchOutcome {
                    candidates: search.candidates,
                    expansions: search.expansions,
                    generation: search.lease.generation,
                    diagnostics,
                },
            ),
        }
    }
}

/// The best window of a text around the matched terms.
#[derive(Clone, Debug, PartialEq, Eq)]
pub struct Snippet {
    /// The window's text; none where the window does not fit the row's text.
    pub text: Option<String>,
    pub start: usize,
    pub end: usize,
    /// Where the matched terms start and end in the row's text.
    pub highlights: Vec<(usize, usize)>,
}

/// One explained hit.
#[derive(Debug)]
pub struct ExplainedLexicalCandidate {
    pub document: DocumentVersion,
    pub score: Double,
    /// The expansions that the document matched.
    pub provenance: Vec<LexicalExpansion>,
    pub snippet: Snippet,
}

/// Outcome of a structured lexical query.
#[derive(Debug)]
pub struct StoreStructuredLexicalSearchOutcome {
    pub candidates: Vec<ExplainedLexicalCandidate>,
    pub expansions: Vec<LexicalExpansion>,
    pub generation: u64,
    pub diagnostics: LexicalDiagnostics,
}

/// A structured lexical query between its steps.
#[derive(Debug)]
pub struct StructuredSearch {
    pub lease: SnapshotLease,
    /// Log position that the pinned snapshot holds.
    pub absorbed_through: u64,
    pub cancellation: QueryCancellation,
    pub sources: Vec<StructuredLexicalSource>,
    pub expansions: Vec<LexicalExpansion>,
    /// Hits of the expansions that were scored, in expansion order.
    pub scored: Vec<Vec<ScoredDoc>>,
    pub counters: SearchCounters,
    /// What the expansions give to each document.
    pub aggregates: Vec<DocAggregate>,
    pub ranked: Vec<RankedDoc>,
    /// Ranked hits that were explained.
    pub candidates: Vec<ExplainedLexicalCandidate>,
}

/// The first row that cannot be read decides.
pub open spec fn rows_read(
    segments: Seq<SegmentFacts>,
    active: ActiveFacts,
    sources: Seq<StructuredLexicalSource>,
    docs: Seq<GlobalDocId>,
    unread: Option<UnreadRow>,
) -> Result<(), StoreLexicalError>
    decreases docs.len(),
{
    if docs.len() == 0 {
        Ok(())
    } else {
        match rows_read(segments, active, sources, docs.drop_last(), unread) {
            Err(error) => Err(error),
            Ok(_) => match row_facts(
                segments,
                active,
                sources,
                docs.last(),
                unread_row_at(unread, docs.len() - 1),
            ) {
                Err(error) => Err(error),
                Ok(_) => Ok(()),
            },
        }
    }
}

proof fn lemma_read_failure_sticks(
    segments: Seq<SegmentFacts>,
    active: ActiveFacts,
    sources: Seq<StructuredLexicalSource>,
    docs: Seq<GlobalDocId>,
    unread: Option<UnreadRow>,
    n: int,
)
    requires
        0 <= n <= docs.len(),
        rows_read(segments, active, sources, docs.take(n), unread) is Err,
    ensures
        rows_read(segments, active, sources, docs, unread) == rows_read(
            segments,
            active,
            sources,
            docs.take(n),
            unread,
        ),
    decreases docs.len() - n,
{
    if n < docs.len() {
        assert(docs.take(n + 1).drop_last() == docs.take(n));
        lemma_read_failure_sticks(segments, active, sources, docs, unread, n + 1);
    } else {
        assert(docs.take(n) == docs);
    }
}

/// Reads the rows of aggregated documents; the first that cannot be read decides.
pub fn read_rows(
    segments: &Vec<SegmentFacts>,
    active: &ActiveFacts,
    sources: &Vec<StructuredLexicalSource>,
    list: &Vec<DocAggregate>,
    unread: Option<UnreadRow>,
) -> (result: Result<(), StoreLexicalError>)
    ensures
        result == rows_read(segments@, *active, sources@, docs_of(list@), unread),
{
    let ghost docs = docs_of(list@);
    let ghost whole = unread;
    let mut pending = unread;
    let mut at: usize = 0;
    while at < list.len()
        invariant
            at <= list@.len(),
            docs == docs_of(list@),
            whole == unread,
            forall|i: int|
                i >= at ==> unread_row_at(pending, i) == #[trigger] unread_row_at(whole, i),
            rows_read(segments@, *active, sources@, docs.take(at as int), whole) is Ok,
        decreases list.len() - at,
    {
        let ghost prefix = docs.take(at + 1);
        assert(prefix.drop_last() == docs.take(at as int));
        assert(prefix.last() == list@[at as int].doc);
        assert(unread_row_at(pending, at as int) == unread_row_at(whole, at as int));
        let fault = take_unread_row(&mut pending, at);
        match structured_lexical_row(segments, active, sources, list[at].doc, fault) {
            Ok(_) => {},
            Err(error) => {
                proof {
                    lemma_read_failure_sticks(segments@, *active, sources@, docs, whole, at + 1);
                }
                return Err(error);
            },
        }
        at = at + 1;
    }
    assert(docs.take(at as int) == docs);
    Ok(())
}

/// The expansions behind contributions, in order.
pub open spec fn is_provenance(
    provenance: Seq<LexicalExpansion>,
    expansions: Seq<LexicalExpansion>,
    contributions: Seq<Contribution>,
) -> bool {
    &&& provenance.len() == contributions.len()
    &&& forall|i: int|
        0 <= i < contributions.len() ==> {
            let expansion = expansions[(#[trigger] contributions[i]).expansion as int];
            &&& provenance[i].term@ == expansion.term@
            &&& provenance[i].boost_thousandths == expansion.boost_thousandths
            &&& provenance[i].kind == expansion.kind
        }
}

fn provenance_of(expansions: &Vec<LexicalExpansion>, contributions: &Vec<Contribution>) -> (provenance:
    Vec<LexicalExpansion>)
    requires
        forall|i: int|
            0 <= i < contributions@.len() ==> (#[trigger] contributions@[i]).expansion
                < expansions@.len(),
    ensures
        is_provenance(provenance@, expansions@, contributions@),
{
    let mut provenance: Vec<LexicalExpansion> = Vec::with_capacity(contributions.len());
    let mut at: usize = 0;
    while at < contributions.len()
        invariant
            at <= contributions@.len(),
            forall|i: int|
                0 <= i < contributions@.len() ==> (#[trigger] contributions@[i]).expansion
                    < expansions@.len(),
            provenance@.len() == at,
            forall|i: int|
                0 <= i < at ==> {
                    let expansion = expansions@[(#[trigger] contributions@[i]).expansion as int];
                    &&& provenance@[i].term@ == expansion.term@
                    &&& provenance@[i].boost_thousandths == expansion.boost_thousandths
                    &&& provenance@[i].kind == expansion.kind
                },
        decreases contributions.len() - at,
    {
        let expansion = &expansions[contributions[at].expansion];
        provenance.push(
            LexicalExpansion {
                term: expansion.term.clone(),
                boost_thousandths: expansion.boost_thousandths,
                kind: expansion.kind,
            },
        );
        at = at + 1;
    }
    provenance
}

proof fn lemma_hits_name_their_expansion(
    totals: Map<GlobalDocId, Seq<Contribution>>,
    expansion: usize,
    hits: Seq<ScoredDoc>,
    n: nat,
)
    requires
        forall|doc: GlobalDocId, i: int|
            totals.dom().contains(doc) && 0 <= i < totals[doc].len() ==> (#[trigger] totals[doc][i]).expansion
                <= expansion,
    ensures
        forall|doc: GlobalDocId, i: int|
            #![trigger with_hits(totals, expansion, hits, n)[doc][i]]
            with_hits(totals, expansion, hits, n).dom().contains(doc) && 0 <= i < with_hits(
                totals,
                expansion,
                hits,
                n,
            )[doc].len() ==> with_hits(totals, expansion, hits, n)[doc][i].expansion <= expansion,
    decreases n,
{
    if n > 0 {
        let earlier = (n - 1) as nat;
        lemma_hits_name_their_expansion(totals, expansion, hits, earlier);
        let before = with_hits(totals, expansion, hits, earlier);
        let after = with_hits(totals, expansion, hits, n);
        assert forall|doc: GlobalDocId, i: int|
            #![trigger after[doc][i]]
            after.dom().contains(doc) && 0 <= i < after[doc].len() implies after[doc][i].expansion
            <= expansion by {
            if doc == hits[n - 1].doc {
                if i < given(before, doc).len() {
                    assert(before.dom().contains(doc));
                    assert(after[doc][i] == before[doc][i]);
                }
            } else {
                assert(after[doc][i] == before[doc][i]);
            }
        }
    }
}

proof fn lemma_totals_name_their_expansions(hits: Seq<Vec<ScoredDoc>>, n: nat)
    requires
        n <= hits.len() <= usize::MAX,
    ensures
        forall|doc: GlobalDocId, i: int|
            #![trigger totals_of(hits, n)[doc][i]]
            totals_of(hits, n).dom().contains(doc) && 0 <= i < totals_of(hits, n)[doc].len()
                ==> totals_of(hits, n)[doc][i].expansion < n,
    decreases n,
{
    if n > 0 {
        let earlier = (n - 1) as nat;
        lemma_totals_name_their_expansions(hits, earlier);
        lemma_hits_name_their_expansion(
            totals_of(hits, earlier),
            earlier as usize,
            hits[n - 1]@,
            hits[n - 1]@.len(),
        );
    }
}

proof fn lemma_admitted_places(
    docs: Seq<GlobalDocId>,
    scores: Seq<Double>,
    phrase: Option<Seq<bool>>,
)
    requires
        docs.len() <= usize::MAX,
    ensures
        forall|i: int|
            0 <= i < admitted(docs, scores, phrase).len() ==> (#[trigger] admitted(
                docs,
                scores,
                phrase,
            )[i]).place < docs.len(),
    decreases docs.len(),
{
    if docs.len() > 0 {
        lemma_admitted_places(docs.drop_last(), scores, phrase);
        let earlier = admitted(docs.drop_last(), scores, phrase);
        let all = admitted(docs, scores, phrase);
        assert forall|i: int| 0 <= i < all.len() implies (#[trigger] all[i]).place < docs.len() by {
            if i < earlier.len() {
                assert(all[i] == earlier[i]);
            }
        }
    }
}

/// What can be said of one ranked hit.
pub open spec fn explanation(
    segments: Seq<SegmentFacts>,
    active: ActiveFacts,
    sources: Seq<StructuredLexicalSource>,
    hit: RankedDoc,
    unread: Option<RowFault>,
    found: Result<Option<Snippet>, StoreLexicalError>,
) -> Result<DocumentVersion, StoreLexicalError> {
    match row_facts(segments, active, sources, hit.doc, unread) {
        Err(error) => Err(error),
        Ok(facts) => match found {
            Err(error) => Err(error),
            Ok(None) => Err(
                StoreLexicalError::MissingSnippetMatch {
                    segment: hit.doc.segment,
                    row: hit.doc.row,
                },
            ),
            Ok(Some(snippet)) => if snippet.text is None {
                Err(StoreLexicalError::Query(QueryError::Store(StoreError::ActiveRowOverflow)))
            } else {
                Ok(facts.1)
            },
        },
    }
}

impl StructuredSearch {
    /// Everything that the scoring steps do not change is as it was.
    pub open spec fn same_query(self, other: StructuredSearch) -> bool {
        &&& self.lease == other.lease
        &&& self.absorbed_through == other.absorbed_through
        &&& self.cancellation == other.cancellation
        &&& self.sources == other.sources
        &&& self.expansions == other.expansions
    }

    /// The aggregates are what the scored expansions give.
    pub open spec fn gathered(self) -> bool {
        &&& self.scored@.len() <= self.expansions@.len()
        &&& lists(self.aggregates@, totals_of(self.scored@, self.scored@.len()))
    }

    /// The ranking names documents of the aggregates.
    pub open spec fn placed(self) -> bool {
        forall|i: int|
            0 <= i < self.ranked@.len() ==> (#[trigger] self.ranked@[i]).place
                < self.aggregates@.len()
    }

    /// Whether a candidate explains a ranked hit: the document of its row, its
    /// score, what it matched, and a window of its text.
    pub open spec fn explains(
        self,
        segments: Seq<SegmentFacts>,
        active: ActiveFacts,
        candidate: ExplainedLexicalCandidate,
        hit: RankedDoc,
    ) -> bool {
        &&& row_facts(segments, active, self.sources@, hit.doc, None) matches Ok(facts)
            && candidate.document == facts.1
        &&& candidate.score == hit.score
        &&& candidate.snippet.text is Some
        &&& is_provenance(
            candidate.provenance@,
            self.expansions@,
            self.aggregates@[hit.place as int].contributions@,
        )
    }

    /// Each candidate explains the ranked hit of its rank.
    pub open spec fn explained(self, segments: Seq<SegmentFacts>, active: ActiveFacts) -> bool {
        &&& self.candidates@.len() <= self.ranked@.len()
        &&& forall|i: int|
            0 <= i < self.candidates@.len() ==> self.explains(
                segments,
                active,
                #[trigger] self.candidates@[i],
                self.ranked@[i],
            )
    }

    /// Takes what the engine found for the next expansion; the stop check, at
    /// `now`, comes first.
    pub fn accept_expansion(
        &mut self,
        flags: &mut StopFlags,
        now: u128,
        found: Result<ScoredList, ControlledSearchError>,
    ) -> (result: Result<(), StoreLexicalError>)
        requires
            old(self).scored@.len() < old(self).expansions@.len(),
            old(self).cancellation.control.on_board(old(flags)@),
        ensures
            final(self).same_query(*old(self)),
            final(self).aggregates == old(self).aggregates,
            final(self).ranked == old(self).ranked,
            final(self).candidates == old(self).candidates,
            final(self).scored@.len() <= final(self).expansions@.len(),
            final(flags)@ == old(self).cancellation.control.looked(old(flags)@, now),
            match old(self).cancellation.checked(final(flags)@) {
                Err(error) => {
                    &&& result == Err::<(), StoreLexicalError>(
                        StoreLexicalError::Query(QueryError::Scan(error)),
                    )
                    &&& *final(self) == *old(self)
                },
                Ok(_) => match found {
                    Err(error) => {
                        &&& result == Err::<(), StoreLexicalError>(controlled_failure(error))
                        &&& *final(self) == *old(self)
                    },
                    Ok(list) => {
                        &&& result is Ok
                        &&& final(self).scored@ == old(self).scored@.push(list.hits)
                        &&& final(self).counters == old(self).counters.sum(list.counters)
                    },
                },
            },
    {
        match self.cancellation.check_graph(flags, now) {
            Ok(_) => {},
            Err(error) => {
                return Err(StoreLexicalError::Query(QueryError::Scan(error)));
            },
        }
        match found {
            Err(error) => Err(map_store_controlled_lexical_error(error)),
            Ok(list) => {
                accumulate_search_counters(&mut self.counters, &list.counters);
                self.scored.push(list.hits);
                Ok(())
            },
        }
    }

    /// Gathers what the expansions give to each document.
    pub fn gather(&mut self)
        requires
            old(self).scored@.len() <= old(self).expansions@.len(),
        ensures
            final(self).same_query(*old(self)),
            final(self).scored == old(self).scored,
            final(self).counters == old(self).counters,
            final(self).ranked == old(self).ranked,
            final(self).candidates == old(self).candidates,
            final(self).gathered(),
    {
        self.aggregates = aggregate_hits(&self.scored);
    }

    /// Ranks the gathered documents by their final scores and keeps the best
    /// `k`. Where the query asks for a phrase, the text of every gathered
    /// document is read, and `phrase` says which of them hold it; `unread` is
    /// the first row that could not be read, where there is one.
    pub fn rank(
        &mut self,
        segments: &Vec<SegmentFacts>,
        active: &ActiveFacts,
        scores: &Vec<Double>,
        phrase: Option<&Vec<bool>>,
        unread: Option<UnreadRow>,
        k: usize,
    ) -> (result: Result<(), StoreLexicalError>)
        requires
            old(self).gathered(),
            scores@.len() == old(self).aggregates@.len(),
            forall|i: int| 0 <= i < scores@.len() ==> is_number(#[trigger] scores@[i]),
        ensures
            final(self).same_query(*old(self)),
            final(self).scored == old(self).scored,
            final(self).counters == old(self).counters,
            final(self).aggregates == old(self).aggregates,
            final(self).candidates == old(self).candidates,
            final(self).gathered(),
            ({
                let docs = docs_of(old(self).aggregates@);
                let readable = rows_read(segments@, *active, old(self).sources@, docs, unread);
                if phrase is Some && readable is Err {
                    &&& result == readable
                    &&& *final(self) == *old(self)
                } else {
                    &&& result is Ok
                    &&& final(self).placed()
                    &&& final(self).ranked@ == best(
                        ranked(
                            admitted(
                                docs,
                                scores@,
                                match phrase {
                                    Some(matches) => Some(matches@),
                                    None => None,
                                },
                            ),
                        ),
                        k as nat,
                    )
                }
            }),
    {
        if phrase.is_some() {
            read_rows(segments, active, &self.sources, &self.aggregates, unread)?;
        }
        self.ranked = rank_structured(&self.aggregates, scores, phrase, k);
        proof {
            let docs = docs_of(self.aggregates@);
            let passed = admitted(
                docs,
                scores@,
                match phrase {
                    Some(matches) => Some(matches@),
                    None => None,
                },
            );
            assert(docs.len() == self.aggregates.len());
            lemma_admitted_places(
                docs,
                scores@,
                match phrase {
                    Some(matches) => Some(matches@),
                    None => None,
                },
            );
            lemma_ranked_is_permutation(passed);
            lemma_permutation_keeps_members(ranked(passed), passed);
            assert forall|i: int| 0 <= i < self.ranked@.len() implies (
            #[trigger] self.ranked@[i]).place < self.aggregates@.len() by {
                assert(self.ranked@[i] == ranked(passed)[i]);
                assert(ranked(passed).contains(self.ranked@[i]));
                assert(passed.contains(self.ranked@[i]));
                let j = choose|j: int| 0 <= j < passed.len() && passed[j] == self.ranked@[i];
                assert(passed[j].place < docs.len());
            }
        }
        Ok(())
    }

    /// Explains the next ranked hit: its document, what it matched and the
    /// window `found` in its text; `unread` says why its row could not be read,
    /// where it could not. The stop check, at `now`, comes first.
    pub fn explain_next(
        &mut self,
        flags: &mut StopFlags,
        segments: &Vec<SegmentFacts>,
        active: &ActiveFacts,
        now: u128,
        unread: Option<RowFault>,
        found: Result<Option<Snippet>, StoreLexicalError>,
    ) -> (result: Result<(), StoreLexicalError>)
        requires
            old(self).gathered(),
            old(self).placed(),
            old(self).candidates@.len() < old(self).ranked@.len(),
            old(self).cancellation.control.on_board(old(flags)@),
        ensures
            final(self).same_query(*old(self)),
            final(self).scored == old(self).scored,
            final(self).counters == old(self).counters,
            final(self).aggregates == old(self).aggregates,
            final(self).ranked == old(self).ranked,
            old(self).explained(segments@, *active) ==> final(self).explained(segments@, *active),
            final(flags)@ == old(self).cancellation.control.looked(old(flags)@, now),
            ({
                let hit = old(self).ranked@[old(self).candidates@.len() as int];
                match old(self).cancellation.checked(final(flags)@) {
                    Err(error) => {
                        &&& result == Err::<(), StoreLexicalError>(
                            StoreLexicalError::Query(QueryError::Scan(error)),
                        )
                        &&& *final(self) == *old(self)
                    },
                    Ok(_) => match explanation(
                        segments@,
                        *active,
                        old(self).sources@,
                        hit,
                        unread,
                        found,
                    ) {
                        Err(error) => {
                            &&& result == Err::<(), StoreLexicalError>(error)
                            &&& *final(self) == *old(self)
                        },
                        Ok(document) => {
                            let added = final(self).candidates@.last();
                            &&& result is Ok
                            &&& final(self).candidates@ == old(self).candidates@.push(added)
                            &&& added.document == document
                            &&& added.score == hit.score
                            &&& Some(added.snippet) == found->Ok_0
                            &&& is_provenance(
                                added.provenance@,
                                old(self).expansions@,
                                old(self).aggregates@[hit.place as int].contributions@,
                            )
                        },
                    },
                }
            }),
    {
        match self.cancellation.check_graph(flags, now) {
            Ok(_) => {},
            Err(error) => {
                return Err(StoreLexicalError::Query(QueryError::Scan(error)));
            },
        }
        let hit = self.ranked[self.candidates.len()];
        let document = match structured_lexical_row(
            segments,
            active,
            &self.sources,
            hit.doc,
            unread,
        ) {
            Ok(pair) => pair.1,
            Err(error) => {
                return Err(error);
            },
        };
        let snippet = match found {
            Err(error) => {
                return Err(error);
            },
            Ok(None) => {
                return Err(
                    StoreLexicalError::MissingSnippetMatch {
                        segment: hit.doc.segment,
                        row: hit.doc.row,
                    },
                );
            },
            Ok(Some(snippet)) => snippet,
        };
        if snippet.text.is_none() {
            return Err(StoreLexicalError::Query(QueryError::Store(StoreError::ActiveRowOverflow)));
        }
        proof {
            let totals = totals_of(self.scored@, self.scored@.len());
            assert(self.scored@.len() == self.scored.len());
            lemma_totals_name_their_expansions(self.scored@, self.scored@.len());
            let entry = self.aggregates@[hit.place as int];
            assert(totals.dom().contains(entry.doc));
            assert forall|i: int| 0 <= i < entry.contributions@.len() implies (
            #[trigger] entry.contributions@[i]).expansion < self.expansions@.len() by {
                assert(totals[entry.doc][i] == entry.contributions@[i]);
            }
        }
        let provenance = provenance_of(
            &self.expansions,
            &self.aggregates[hit.place].contributions,
        );
        self.candidates.push(
            ExplainedLexicalCandidate { document, score: hit.score, provenance, snippet },
        );
        proof {
            assert(old(self).explained(segments@, *active) ==> self.explained(segments@, *active))
                by {
                let last = old(self).candidates@.len() as int;
                assert(self.explains(
                    segments@,
                    *active,
                    self.candidates@[last],
                    self.ranked@[last],
                ));
                assert forall|i: int|
                    old(self).explained(segments@, *active) && 0 <= i
                        < self.candidates@.len() implies self.explains(
                    segments@,
                    *active,
                    #[trigger] self.candidates@[i],
                    self.ranked@[i],
                ) by {
                    if i < last {
                        assert(self.candidates@[i] == old(self).candidates@[i]);
                        assert(old(self).explains(
                            segments@,
                            *active,
                            old(self).candidates@[i],
                            old(self).ranked@[i],
                        ));
                    }
                }
            }
        }
        Ok(())
    }
}

/// A structured query whose ranked hits are all explained returns the best hits of
/// its ranking, in that order, and explains each.
pub proof fn lemma_structured_result_explains_the_best_hits(
    search: StructuredSearch,
    segments: Seq<SegmentFacts>,
    active: ActiveFacts,
    scores: Seq<Double>,
    phrase: Option<Seq<bool>>,
    k: nat,
)
    requires
        search.explained(segments, active),
        search.candidates@.len() == search.ranked@.len(),
        search.ranked@ == best(ranked(admitted(docs_of(search.aggregates@), scores, phrase)), k),
    ensures
        ({
            let hits = best(ranked(admitted(docs_of(search.aggregates@), scores, phrase)), k);
            &&& search.candidates@.len() == hits.len()
            &&& forall|i: int|
                0 <= i < hits.len() ==> search.explains(
                    segments,
                    active,
                    #[trigger] search.candidates@[i],
                    hits[i],
                )
        }),
{
}

} // verus!
