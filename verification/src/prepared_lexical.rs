//! Lexical preparation owned by one pinned hybrid query.

use crate::accounting::AccountedCounter;
use crate::accounting::Accounting;
use crate::accounting::AllocationComponent;
use crate::error::QueryError;
use crate::error::ScanError;
use crate::error::SegmentError;
use crate::error::StoreError;
use crate::fusion::FusionError;
use crate::fusion::FusionLeg;
use crate::fusion::LegFailureKind;
use crate::hybrid::is_refusal;
use crate::hybrid::refusal;
use crate::identity::is_lexical_invariant;
use crate::identity::lexical_invariant;
use crate::lexical::is_lexical_leg;
use crate::lexical::plain_expansions;
use crate::lexical::term_expansions;
use crate::lexical::LexicalExpansion;
use vstd::prelude::*;

verus! {

/// The lexical query of a hybrid query, with the identity of the caller's value.
#[derive(Clone, Debug)]
pub enum PinnedLexicalQuery {
    Term { identity: u64, terms: Vec<String> },
    Structured { identity: u64 },
}

/// What assembling the pinned sources gave.
#[derive(Clone, Copy, Debug, PartialEq, Eq, Structural)]
pub struct AssemblyReceipt {
    /// Identity of the assembly.
    pub assembly: u64,
    /// Searchable sources in it.
    pub segments: usize,
    pub cache_hit: bool,
}

/// Statistics of a query over an assembly, as the lexical engine makes them.
#[derive(Debug)]
pub struct QueryTables {
    /// Bytes that they take; nothing where the number overflows.
    pub bytes: Option<u64>,
    /// Whether they could be made.
    pub built: Result<(), String>,
}

/// What a query keeps of its preparation.
#[derive(Clone, Copy, Debug, PartialEq, Eq, Structural)]
pub struct PreparedState {
    pub assembly: u64,
    /// Statistics are there.
    pub scoring: bool,
    /// Bytes charged for them.
    pub memory: u64,
}

/// What a structured query keeps of its preparation.
#[derive(Debug)]
pub struct PreparedStructuredState {
    pub state: PreparedState,
    /// Expansions that no caller has taken yet.
    pub expansions: Vec<LexicalExpansion>,
}

/// Preparation of one pinned lexical query.
#[derive(Debug)]
pub struct PreparedLexicalQuery {
    pub query: PinnedLexicalQuery,
    pub term: Option<PreparedState>,
    pub structured: Option<PreparedStructuredState>,
}

/// The refusal of bytes whose number overflows.
pub open spec fn unbounded_refusal() -> StoreError {
    StoreError::BudgetExceeded { needed: u64::MAX, budget: u64::MAX, component: "temporary" }
}

/// Changes a temporary charge to `bytes`, where the number does not overflow.
pub fn reserve_weighted_scratch(
    memory: &mut AccountedCounter,
    accounting: &mut Accounting,
    bytes: Option<u64>,
) -> (result: Result<(), QueryError>)
    requires
        old(memory).covered_by(*old(accounting)),
    ensures
        final(memory).covered_by(*final(accounting)),
        final(memory).component == old(memory).component,
        final(accounting).budgets == old(accounting).budgets,
        final(accounting).resident == old(accounting).resident - old(memory).bytes + final(
            memory
        ).bytes,
        final(accounting).temporary == old(accounting).temporary + Accounting::temporary_part(
            final(memory).bytes - old(memory).bytes,
            old(memory).component,
        ),
        match bytes {
            None => {
                &&& result == Err::<(), QueryError>(QueryError::Store(unbounded_refusal()))
                &&& final(memory).bytes == old(memory).bytes
            },
            Some(wanted) => match old(memory).change(*old(accounting), wanted) {
                Ok(_) => result is Ok && final(memory).bytes == wanted,
                Err(error) => {
                    &&& result == Err::<(), QueryError>(QueryError::Store(error))
                    &&& final(memory).bytes == old(memory).bytes
                },
            },
        },
{
    match bytes {
        None => Err(
            QueryError::Store(
                StoreError::BudgetExceeded {
                    needed: u64::MAX,
                    budget: u64::MAX,
                    component: "temporary",
                },
            ),
        ),
        Some(wanted) => match memory.set(accounting, wanted) {
            Ok(_) => Ok(()),
            Err(error) => Err(QueryError::Store(error)),
        },
    }
}

/// What preparing statistics comes to, and the totals after it.
pub open spec fn prepared_as(
    result: Result<PreparedState, FusionError>,
    before: Accounting,
    after: Accounting,
    receipt: AssemblyReceipt,
    stop: Result<(), ScanError>,
    inner: Seq<char>,
    unmatched: bool,
    tables: QueryTables,
) -> bool {
    match stop {
        Err(scan) => {
            &&& result matches Err(error) && error.stands_for(
                QueryError::Scan(scan),
                FusionLeg::Vector,
                inner,
            )
            &&& after == before
        },
        Ok(_) => if receipt.segments == 0 || unmatched {
            &&& result == Ok::<PreparedState, FusionError>(
                PreparedState { assembly: receipt.assembly, scoring: false, memory: 0 },
            )
            &&& after == before
        } else {
            match tables.bytes {
                None => {
                    &&& result matches Err(error) && is_refusal(error, unbounded_refusal())
                    &&& after == before
                },
                Some(bytes) => match before.charged(bytes, AllocationComponent::Temporary) {
                    Err(refused) => {
                        &&& result matches Err(error) && is_refusal(error, refused)
                        &&& after == before
                    },
                    Ok(totals) => match tables.built {
                        Err(text) => {
                            &&& result matches Err(error) && is_lexical_leg(
                                error,
                                LegFailureKind::Lexical,
                                text@,
                            )
                            &&& after == before
                        },
                        Ok(_) => {
                            &&& result == Ok::<PreparedState, FusionError>(
                                PreparedState {
                                    assembly: receipt.assembly,
                                    scoring: true,
                                    memory: bytes,
                                },
                            )
                            &&& after.budgets == before.budgets
                            &&& after.resident == totals.0
                            &&& after.temporary == totals.1
                        },
                    },
                },
            }
        },
    }
}

/// Charges the statistics of a query and takes them; a failure gives the charge
/// back.
fn prepare_state(
    accounting: &mut Accounting,
    receipt: AssemblyReceipt,
    stop: Result<(), ScanError>,
    inner: &str,
    unmatched: bool,
    tables: QueryTables,
) -> (result: Result<PreparedState, FusionError>)
    ensures
        prepared_as(
            result,
            *old(accounting),
            *final(accounting),
            receipt,
            stop,
            inner@,
            unmatched,
            tables,
        ),
{
    match stop {
        Err(scan) => {
            return Err(FusionError::from_query(QueryError::Scan(scan), FusionLeg::Vector, inner));
        },
        Ok(_) => {},
    }
    if receipt.segments == 0 || unmatched {
        return Ok(PreparedState { assembly: receipt.assembly, scoring: false, memory: 0 });
    }
    let bytes: u64 = match tables.bytes {
        Some(bytes) => bytes,
        None => {
            return Err(
                refusal(
                    StoreError::BudgetExceeded {
                        needed: u64::MAX,
                        budget: u64::MAX,
                        component: "temporary",
                    },
                ),
            );
        },
    };
    match accounting.charge(bytes, AllocationComponent::Temporary) {
        Ok(_) => {},
        Err(error) => {
            return Err(refusal(error));
        },
    }
    match tables.built {
        Ok(_) => Ok(PreparedState { assembly: receipt.assembly, scoring: true, memory: bytes }),
        Err(text) => {
            accounting.release(bytes, AllocationComponent::Temporary);
            Err(
                FusionError::Leg {
                    leg: FusionLeg::Lexical,
                    kind: LegFailureKind::Lexical,
                    detail: text,
                },
            )
        },
    }
}

impl PreparedLexicalQuery {
    /// Bytes that the preparation is charged.
    pub open spec fn charge(self) -> nat {
        (match self.term {
            Some(state) => state.memory as nat,
            None => 0,
        }) + (match self.structured {
            Some(kept) => kept.state.memory as nat,
            None => 0,
        })
    }

    /// The totals hold at least what the preparation is charged.
    pub open spec fn covered_by(self, accounting: Accounting) -> bool {
        self.charge() <= accounting.temporary && self.charge() <= accounting.resident
    }

    /// Nothing prepared.
    pub fn new(query: PinnedLexicalQuery) -> (prepared: PreparedLexicalQuery)
        ensures
            prepared.query == query,
            prepared.term is None,
            prepared.structured is None,
            prepared.charge() == 0,
    {
        PreparedLexicalQuery { query, term: None, structured: None }
    }

    /// Forgets what was prepared and gives its charge back.
    pub fn reset_for_test(&mut self, accounting: &mut Accounting)
        requires
            old(self).covered_by(*old(accounting)),
        ensures
            final(self).query == old(self).query,
            final(self).term is None,
            final(self).structured is None,
            final(accounting).budgets == old(accounting).budgets,
            final(accounting).temporary == old(accounting).temporary - old(self).charge(),
            final(accounting).resident == old(accounting).resident - old(self).charge(),
    {
        match self.term {
            Some(state) => accounting.release(state.memory, AllocationComponent::Temporary),
            None => {},
        }
        match &self.structured {
            Some(kept) => accounting.release(kept.state.memory, AllocationComponent::Temporary),
            None => {},
        }
        self.term = None;
        self.structured = None;
    }

    /// Prepares a plain query once; says whether its assembly was cached. A
    /// failure publishes nothing and charges nothing.
    pub fn prepare_term(
        &mut self,
        accounting: &mut Accounting,
        assembled: Result<AssemblyReceipt, FusionError>,
        stop: Result<(), ScanError>,
        inner: &str,
        tables: QueryTables,
    ) -> (result: Result<bool, FusionError>)
        requires
            old(self).covered_by(*old(accounting)),
        ensures
            final(self).query == old(self).query,
            final(self).structured == old(self).structured,
            final(self).covered_by(*final(accounting)),
            old(self).query is Structured || old(self).term is Some ==> *final(self) == *old(self)
                && *final(accounting) == *old(accounting),
            match (old(self).query, old(self).term, assembled) {
                (PinnedLexicalQuery::Structured { .. }, _, _) => result matches Err(error)
                    && is_lexical_invariant(
                    error,
                    "term preparation used for another query kind"@,
                ),
                (_, Some(_), _) => result == Ok::<bool, FusionError>(true),
                (_, None, Err(error)) => {
                    &&& result == Err::<bool, FusionError>(error)
                    &&& *final(self) == *old(self)
                    &&& *final(accounting) == *old(accounting)
                },
                (_, None, Ok(receipt)) => {
                    let outcome = match result {
                        Ok(_) => Ok::<PreparedState, FusionError>(final(self).term->Some_0),
                        Err(error) => Err(error),
                    };
                    &&& prepared_as(
                        outcome,
                        *old(accounting),
                        *final(accounting),
                        receipt,
                        stop,
                        inner@,
                        false,
                        tables,
                    )
                    &&& final(self).term is Some <==> result is Ok
                    &&& result is Ok ==> result->Ok_0 == receipt.cache_hit
                },
            },
    {
        match self.query {
            PinnedLexicalQuery::Structured { .. } => {
                return Err(lexical_invariant("term preparation used for another query kind"));
            },
            PinnedLexicalQuery::Term { .. } => {},
        }
        match self.term {
            Some(_) => {
                return Ok(true);
            },
            None => {},
        }
        let receipt = match assembled {
            Ok(receipt) => receipt,
            Err(error) => {
                return Err(error);
            },
        };
        match prepare_state(accounting, receipt, stop, inner, false, tables) {
            Ok(state) => {
                self.term = Some(state);
                Ok(receipt.cache_hit)
            },
            Err(error) => Err(error),
        }
    }

    /// Prepares a structured query once; says whether its assembly was cached.
    /// `expanded` holds the terms that the query expands to. A failure publishes
    /// nothing and charges nothing.
    pub fn prepare_structured(
        &mut self,
        accounting: &mut Accounting,
        assembled: Result<AssemblyReceipt, FusionError>,
        vocabulary: Result<(), FusionError>,
        expanded: Result<Vec<LexicalExpansion>, String>,
        stop: Result<(), ScanError>,
        inner: &str,
        tables: QueryTables,
    ) -> (result: Result<bool, FusionError>)
        requires
            old(self).covered_by(*old(accounting)),
        ensures
            final(self).query == old(self).query,
            final(self).term == old(self).term,
            final(self).covered_by(*final(accounting)),
            result is Err ==> *final(self) == *old(self) && *final(accounting) == *old(accounting),
            old(self).structured is Some ==> *final(self) == *old(self) && *final(accounting)
                == *old(accounting),
            match (old(self).query, old(self).structured) {
                (PinnedLexicalQuery::Term { .. }, _) => result matches Err(error)
                    && is_lexical_invariant(
                    error,
                    "structured preparation used for another query kind"@,
                ),
                (_, Some(_)) => result == Ok::<bool, FusionError>(true),
                (_, None) => match (assembled, vocabulary, expanded) {
                    (Err(error), _, _) => result == Err::<bool, FusionError>(error),
                    (_, Err(error), _) => result == Err::<bool, FusionError>(error),
                    (_, _, Err(text)) => result matches Err(error) && is_lexical_leg(
                        error,
                        LegFailureKind::Lexical,
                        text@,
                    ),
                    (Ok(receipt), Ok(_), Ok(expansions)) => {
                        let outcome = match result {
                            Ok(_) => Ok::<PreparedState, FusionError>(
                                final(self).structured->Some_0.state,
                            ),
                            Err(error) => Err(error),
                        };
                        &&& prepared_as(
                            outcome,
                            *old(accounting),
                            *final(accounting),
                            receipt,
                            stop,
                            inner@,
                            expansions@.len() == 0,
                            tables,
                        )
                        &&& result is Ok ==> {
                            &&& result->Ok_0 == receipt.cache_hit
                            &&& final(self).structured is Some
                            &&& final(self).structured->Some_0.expansions@ == if outcome->Ok_0.scoring {
                                expansions@
                            } else {
                                Seq::empty()
                            }
                        }
                    },
                },
            },
    {
        match self.query {
            PinnedLexicalQuery::Term { .. } => {
                return Err(lexical_invariant("structured preparation used for another query kind"));
            },
            PinnedLexicalQuery::Structured { .. } => {},
        }
        match &self.structured {
            Some(_) => {
                return Ok(true);
            },
            None => {},
        }
        let receipt = match assembled {
            Ok(receipt) => receipt,
            Err(error) => {
                return Err(error);
            },
        };
        match vocabulary {
            Ok(_) => {},
            Err(error) => {
                return Err(error);
            },
        }
        let expansions = match expanded {
            Ok(expansions) => expansions,
            Err(text) => {
                return Err(
                    FusionError::Leg {
                        leg: FusionLeg::Lexical,
                        kind: LegFailureKind::Lexical,
                        detail: text,
                    },
                );
            },
        };
        let unmatched = expansions.len() == 0;
        match prepare_state(accounting, receipt, stop, inner, unmatched, tables) {
            Ok(state) => {
                let kept = if state.scoring {
                    expansions
                } else {
                    Vec::new()
                };
                self.structured = Some(PreparedStructuredState { state, expansions: kept });
                Ok(receipt.cache_hit)
            },
            Err(error) => Err(error),
        }
    }

    /// Hands out the terms that the query expands to: those of a plain query,
    /// each with unit boost, or those of a prepared structured one, once.
    pub fn take_expansions(&mut self) -> (result: Result<Vec<LexicalExpansion>, FusionError>)
        ensures
            final(self).query == old(self).query,
            final(self).term == old(self).term,
            final(self).charge() == old(self).charge(),
            match old(self).query {
                PinnedLexicalQuery::Term { terms, .. } => {
                    &&& result matches Ok(expansions) && plain_expansions(expansions@, terms@)
                    &&& final(self).structured == old(self).structured
                },
                PinnedLexicalQuery::Structured { .. } => match old(self).structured {
                    None => {
                        &&& result matches Err(error) && is_lexical_invariant(
                            error,
                            "structured producer did not prepare expansions"@,
                        )
                        &&& final(self).structured is None
                    },
                    Some(kept) => {
                        &&& result == Ok::<Vec<LexicalExpansion>, FusionError>(kept.expansions)
                        &&& final(self).structured matches Some(left) && left.state == kept.state
                            && left.expansions@.len() == 0
                    },
                },
            },
    {
        match &self.query {
            PinnedLexicalQuery::Term { terms, .. } => {
                return Ok(term_expansions(terms));
            },
            PinnedLexicalQuery::Structured { .. } => {},
        }
        match self.structured.take() {
            None => Err(lexical_invariant("structured producer did not prepare expansions")),
            Some(kept) => {
                self.structured = Some(
                    PreparedStructuredState { state: kept.state, expansions: Vec::new() },
                );
                Ok(kept.expansions)
            },
        }
    }

    /// Whether the statistics of a plain query can score rows of an assembly.
    pub fn term_scoring(&self, assembly: u64, query: u64) -> (result: Result<(), FusionError>)
        ensures
            match (self.query, self.term) {
                (PinnedLexicalQuery::Structured { .. }, _) => result matches Err(error)
                    && is_lexical_invariant(error, "term scoring used for another query kind"@),
                (_, None) => result matches Err(error) && is_lexical_invariant(
                    error,
                    "lexical producer did not prepare its query"@,
                ),
                (PinnedLexicalQuery::Term { identity, .. }, Some(state)) => if identity != query
                    || state.assembly != assembly {
                    result matches Err(error) && is_lexical_invariant(
                        error,
                        "lexical preparation belongs to another query or pinned assembly"@,
                    )
                } else if !state.scoring {
                    result matches Err(error) && is_lexical_invariant(
                        error,
                        "nonempty lexical candidates have no prepared statistics"@,
                    )
                } else {
                    result is Ok
                },
            },
    {
        let bound: u64 = match &self.query {
            PinnedLexicalQuery::Term { identity, .. } => *identity,
            PinnedLexicalQuery::Structured { .. } => {
                return Err(lexical_invariant("term scoring used for another query kind"));
            },
        };
        match self.term {
            None => Err(lexical_invariant("lexical producer did not prepare its query")),
            Some(state) => if bound != query || state.assembly != assembly {
                Err(
                    lexical_invariant(
                        "lexical preparation belongs to another query or pinned assembly",
                    ),
                )
            } else if !state.scoring {
                Err(lexical_invariant("nonempty lexical candidates have no prepared statistics"))
            } else {
                Ok(())
            },
        }
    }

    /// Whether a structured query has statistics to score rows of an assembly.
    pub fn structured_scoring(&self, assembly: u64, query: u64) -> (result: Result<
        bool,
        FusionError,
    >)
        ensures
            match (self.query, self.structured) {
                (PinnedLexicalQuery::Term { .. }, _) => result matches Err(error)
                    && is_lexical_invariant(
                    error,
                    "structured scoring used for another query kind"@,
                ),
                (_, None) => result matches Err(error) && is_lexical_invariant(
                    error,
                    "structured producer did not prepare its query"@,
                ),
                (PinnedLexicalQuery::Structured { identity }, Some(kept)) => if identity != query
                    || kept.state.assembly != assembly {
                    result matches Err(error) && is_lexical_invariant(
                        error,
                        "structured preparation belongs to another query or pinned assembly"@,
                    )
                } else {
                    result == Ok::<bool, FusionError>(kept.state.scoring)
                },
            },
    {
        let bound: u64 = match &self.query {
            PinnedLexicalQuery::Structured { identity } => *identity,
            PinnedLexicalQuery::Term { .. } => {
                return Err(lexical_invariant("structured scoring used for another query kind"));
            },
        };
        match &self.structured {
            None => Err(lexical_invariant("structured producer did not prepare its query")),
            Some(kept) => if bound != query || kept.state.assembly != assembly {
                Err(
                    lexical_invariant(
                        "structured preparation belongs to another query or pinned assembly",
                    ),
                )
            } else {
                Ok(kept.state.scoring)
            },
        }
    }
}

impl PreparedState {
    /// Whether statistics are there for a nonempty input.
    pub fn scoring(&self) -> (result: Result<(), FusionError>)
        ensures
            if self.scoring {
                result is Ok
            } else {
                result matches Err(error) && is_lexical_invariant(
                    error,
                    "nonempty lexical input has no prepared statistics"@,
                )
            },
    {
        if self.scoring {
            Ok(())
        } else {
            Err(lexical_invariant("nonempty lexical input has no prepared statistics"))
        }
    }
}

/// Why reading a phrase failed.
#[derive(Clone, Debug)]
pub enum PhraseReadError {
    /// The query was stopped or refused memory.
    Control(QueryError),
    /// The index could not be read.
    Storage(SegmentError),
}

/// A phrase failure at the query's surface.
pub open spec fn phrase_failure(error: PhraseReadError) -> QueryError {
    match error {
        PhraseReadError::Control(error) => error,
        PhraseReadError::Storage(error) => QueryError::Store(StoreError::Segment(error)),
    }
}

/// A phrase failure at the query's surface.
pub fn phrase_error(error: PhraseReadError) -> (result: QueryError)
    ensures
        result == phrase_failure(error),
{
    match error {
        PhraseReadError::Control(error) => error,
        PhraseReadError::Storage(error) => QueryError::Store(StoreError::Segment(error)),
    }
}

/// The phrase that every hit of a query must hold, if it has one.
#[derive(Debug)]
pub struct PhraseEligibility {
    /// Bytes of the prepared phrase.
    pub phrase: Option<u64>,
    pub memory: AccountedCounter,
}

impl PhraseEligibility {
    /// Wraps what preparing the phrase gave; `memory` is what it was charged.
    pub fn new(
        prepared: Result<Option<u64>, PhraseReadError>,
        memory: AccountedCounter,
        accounting: &mut Accounting,
    ) -> (result: Result<PhraseEligibility, QueryError>)
        requires
            memory.covered_by(*old(accounting)),
        ensures
            match prepared {
                Ok(phrase) => {
                    &&& result == Ok::<PhraseEligibility, QueryError>(
                        PhraseEligibility { phrase, memory },
                    )
                    &&& *final(accounting) == *old(accounting)
                },
                Err(error) => {
                    &&& result == Err::<PhraseEligibility, QueryError>(phrase_failure(error))
                    &&& final(accounting).budgets == old(accounting).budgets
                    &&& final(accounting).resident == old(accounting).resident - memory.bytes
                    &&& final(accounting).temporary == old(accounting).temporary
                        - Accounting::temporary_part(memory.bytes as int, memory.component)
                },
            },
    {
        match prepared {
            Ok(phrase) => Ok(PhraseEligibility { phrase, memory }),
            Err(error) => {
                memory.release(accounting);
                Err(phrase_error(error))
            },
        }
    }

    /// Whether a document holds the phrase. `read` is what the engine found,
    /// having charged its working memory through `memory`; whatever it found,
    /// the charge falls back to that of the prepared phrase.
    pub fn matches(
        &mut self,
        accounting: &mut Accounting,
        read: Result<bool, PhraseReadError>,
    ) -> (result: Result<bool, QueryError>)
        requires
            old(self).memory.covered_by(*old(accounting)),
        ensures
            final(self).phrase == old(self).phrase,
            final(self).memory.covered_by(*final(accounting)),
            final(self).memory.component == old(self).memory.component,
            final(accounting).budgets == old(accounting).budgets,
            final(accounting).resident == old(accounting).resident - old(self).memory.bytes
                + final(self).memory.bytes,
            final(accounting).temporary == old(accounting).temporary + Accounting::temporary_part(
                final(self).memory.bytes - old(self).memory.bytes,
                old(self).memory.component,
            ),
            match old(self).phrase {
                None => {
                    &&& result == Ok::<bool, QueryError>(true)
                    &&& *final(self) == *old(self)
                    &&& *final(accounting) == *old(accounting)
                },
                Some(bytes) => {
                    let released = old(self).memory.change(*old(accounting), bytes);
                    &&& result == match (read, released) {
                        (Err(error), _) => Err(phrase_failure(error)),
                        (_, Err(error)) => Err(QueryError::Store(error)),
                        (Ok(found), Ok(_)) => Ok(found),
                    }
                    &&& final(self).memory.bytes == if released is Ok {
                        bytes
                    } else {
                        old(self).memory.bytes
                    }
                },
            },
    {
        let bytes: u64 = match self.phrase {
            None => {
                return Ok(true);
            },
            Some(bytes) => bytes,
        };
        let released = self.memory.set(accounting, bytes);
        match read {
            Err(error) => Err(phrase_error(error)),
            Ok(found) => match released {
                Err(error) => Err(QueryError::Store(error)),
                Ok(_) => Ok(found),
            },
        }
    }
}

} // verus!
