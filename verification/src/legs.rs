//! The lexical legs of a hybrid query, from their sources to the joined hits.

use crate::candidates::accumulate_search_counters;
use crate::candidates::LexicalHit;
use crate::candidates::SearchCounters;
use crate::candidates::StructuredLexicalSource;
use crate::corpus::ActiveFacts;
use crate::corpus::SegmentFacts;
use crate::corpus::UnreadDocument;
use crate::corpus::UnreadRow;
use crate::error::ScanError;
use crate::fusion::FusionError;
use crate::fusion::FusionLeg;
use crate::fusion::LegFailureKind;
use crate::lexical::assemble_lexical_index;
use crate::lexical::assembly;
use crate::lexical::document_error_text;
use crate::lexical::is_assembly_leg;
use crate::lexical::is_lexical_leg;
use crate::lexical::join_hits;
use crate::lexical::joined_hits;
use crate::lexical::leg_width;
use crate::lexical::map_fusion_lexical_assembly_error;
use crate::lexical::map_structured_leg_document_error;
use crate::lexical::map_term_leg_document_error;
use crate::lexical::plain_expansions;
use crate::lexical::term_expansions;
use crate::lexical::width_of_leg;
use crate::lexical::LexicalExpansion;
use crate::lexical::ScoredDoc;
use crate::lexical::UnopenedSource;
use crate::lexical_search::read_rows;
use crate::lexical_search::rows_read;
use crate::lexical_search::ScoredList;
use crate::rank::best;
use crate::rank::ranked;
use crate::score::Double;
use crate::structured::admitted;
use crate::structured::aggregate_hits;
use crate::structured::docs_of;
use crate::structured::is_number;
use crate::structured::lists;
use crate::structured::rank_structured;
use crate::structured::scored_docs;
use crate::structured::totals_of;
use crate::structured::DocAggregate;
use crate::structured::RankedDoc;
use vstd::prelude::*;

verus! {

/// What one lexical leg gives to its round.
#[derive(Debug)]
pub struct ExactLexicalLeg {
    pub hits: Vec<LexicalHit>,
    pub sources: Vec<StructuredLexicalSource>,
    pub counters: SearchCounters,
    pub expansions: Vec<LexicalExpansion>,
}

/// A leg whose sources are put together and that is to be searched.
#[derive(Debug)]
pub struct TermLeg {
    pub sources: Vec<StructuredLexicalSource>,
    /// Hits that the search is asked for.
    pub k: usize,
}

impl TermLeg {
    /// Puts the sources of a plain leg together. `document_count` is how many
    /// documents they hold; `checks` and `unopened` are as for the assembly, and
    /// `inner` is how the scan engine words its own failure.
    pub fn begin(
        segments: &Vec<SegmentFacts>,
        active: &ActiveFacts,
        checks: &Vec<Result<(), ScanError>>,
        unopened: Option<UnopenedSource>,
        bound: usize,
        document_count: u64,
        inner: &str,
    ) -> (result: Result<TermLeg, FusionError>)
        ensures
            match assembly(segments@, *active, checks@, unopened, false) {
                Err(reason) => result matches Err(error) && is_assembly_leg(error, reason, inner@),
                Ok(sources) => result matches Ok(leg) && leg.sources@ == sources && leg.k
                    == width_of_leg(bound, document_count),
            },
    {
        match assemble_lexical_index(segments, active, false, checks, unopened) {
            Err(error) => Err(map_fusion_lexical_assembly_error(error, inner)),
            Ok(sources) => Ok(TermLeg { sources, k: leg_width(bound, document_count) }),
        }
    }

    /// Ends a plain leg. `searched` is what the lexical engine found over the
    /// sources, which is not asked where there is none; `unread` is the first
    /// document that could not be read.
    pub fn exact_lexical_leg(
        self,
        segments: &Vec<SegmentFacts>,
        active: &ActiveFacts,
        terms: &Vec<String>,
        searched: Result<ScoredList, FusionError>,
        unread: Option<UnreadDocument>,
    ) -> (result: Result<ExactLexicalLeg, FusionError>)
        ensures
            if self.sources@.len() == 0 {
                result matches Ok(leg) && leg.hits@ == Seq::<LexicalHit>::empty() && leg.sources
                    == self.sources && leg.counters == SearchCounters::spec_zero()
                    && plain_expansions(leg.expansions@, terms@)
            } else {
                match searched {
                    Err(error) => result == Err::<ExactLexicalLeg, FusionError>(error),
                    Ok(list) => match joined_hits(
                        segments@,
                        *active,
                        self.sources@,
                        list.hits@,
                        unread,
                    ) {
                        Err(reason) => result matches Err(error) && is_lexical_leg(
                            error,
                            if reason is Segment {
                                LegFailureKind::Segment
                            } else {
                                LegFailureKind::Invariant
                            },
                            document_error_text(reason),
                        ),
                        Ok(joined) => result matches Ok(leg) && leg.hits@ == joined && leg.sources
                            == self.sources && leg.counters == list.counters && plain_expansions(
                            leg.expansions@,
                            terms@,
                        ),
                    },
                }
            },
    {
        if self.sources.len() == 0 {
            return Ok(
                ExactLexicalLeg {
                    hits: Vec::new(),
                    sources: self.sources,
                    counters: SearchCounters::zero(),
                    expansions: term_expansions(terms),
                },
            );
        }
        let list = searched?;
        match join_hits(segments, active, &self.sources, &list.hits, unread) {
            Err(error) => Err(map_term_leg_document_error(error)),
            Ok(hits) => Ok(
                ExactLexicalLeg {
                    hits,
                    sources: self.sources,
                    counters: list.counters,
                    expansions: term_expansions(terms),
                },
            ),
        }
    }
}

/// A structured leg between its steps.
#[derive(Debug)]
pub struct StructuredLeg {
    pub sources: Vec<StructuredLexicalSource>,
    /// Hits that each search is asked for, and hits that the leg keeps.
    pub k: usize,
    pub expansions: Vec<LexicalExpansion>,
    /// Hits of the expansions that were searched, in expansion order.
    pub scored: Vec<Vec<ScoredDoc>>,
    pub counters: SearchCounters,
    /// What the expansions give to each document.
    pub aggregates: Vec<DocAggregate>,
}

impl StructuredLeg {
    /// There is nothing to search.
    pub open spec fn spec_is_idle(self) -> bool {
        self.sources@.len() == 0 || self.expansions@.len() == 0
    }

    /// There is nothing to search.
    pub fn is_idle(&self) -> (idle: bool)
        ensures
            idle == self.spec_is_idle(),
    {
        self.sources.len() == 0 || self.expansions.len() == 0
    }

    /// Same sources, width and expansions.
    pub open spec fn same_leg(self, other: StructuredLeg) -> bool {
        &&& self.sources == other.sources
        &&& self.k == other.k
        &&& self.expansions == other.expansions
    }

    /// Every expansion was searched, and the aggregates are what they give.
    pub open spec fn gathered(self) -> bool {
        &&& self.scored@.len() == self.expansions@.len()
        &&& lists(self.aggregates@, totals_of(self.scored@, self.scored@.len()))
    }

    /// Puts the sources of a structured leg together and takes the terms that
    /// its query is `expanded` to over their vocabulary.
    pub fn begin(
        segments: &Vec<SegmentFacts>,
        active: &ActiveFacts,
        checks: &Vec<Result<(), ScanError>>,
        unopened: Option<UnopenedSource>,
        expanded: Result<Vec<LexicalExpansion>, String>,
        bound: usize,
        document_count: u64,
        inner: &str,
    ) -> (result: Result<StructuredLeg, FusionError>)
        ensures
            match assembly(segments@, *active, checks@, unopened, false) {
                Err(reason) => result matches Err(error) && is_assembly_leg(error, reason, inner@),
                Ok(sources) => match expanded {
                    Err(text) => result matches Err(error) && is_lexical_leg(
                        error,
                        LegFailureKind::Lexical,
                        text@,
                    ),
                    Ok(expansions) => result matches Ok(leg) && leg.sources@ == sources && leg.k
                        == width_of_leg(bound, document_count) && leg.expansions == expansions
                        && leg.scored@.len() == 0 && leg.counters == SearchCounters::spec_zero()
                        && leg.aggregates@.len() == 0,
                },
            },
    {
        let sources = match assemble_lexical_index(segments, active, false, checks, unopened) {
            Err(error) => {
                return Err(map_fusion_lexical_assembly_error(error, inner));
            },
            Ok(sources) => sources,
        };
        match expanded {
            Err(detail) => Err(
                FusionError::Leg {
                    leg: FusionLeg::Lexical,
                    kind: LegFailureKind::Lexical,
                    detail,
                },
            ),
            Ok(expansions) => Ok(
                StructuredLeg {
                    sources,
                    k: leg_width(bound, document_count),
                    expansions,
                    scored: Vec::new(),
                    counters: SearchCounters::zero(),
                    aggregates: Vec::new(),
                },
            ),
        }
    }

    /// Takes what the engine found for the next expansion.
    pub fn accept_expansion(&mut self, found: Result<ScoredList, FusionError>) -> (result: Result<
        (),
        FusionError,
    >)
        requires
            old(self).scored@.len() < old(self).expansions@.len(),
        ensures
            match found {
                Err(error) => {
                    &&& result == Err::<(), FusionError>(error)
                    &&& *final(self) == *old(self)
                },
                Ok(list) => {
                    &&& result is Ok
                    &&& final(self).same_leg(*old(self))
                    &&& final(self).scored@ == old(self).scored@.push(list.hits)
                    &&& final(self).counters == old(self).counters.sum(list.counters)
                    &&& final(self).aggregates == old(self).aggregates
                },
            },
    {
        let list = found?;
        accumulate_search_counters(&mut self.counters, &list.counters);
        self.scored.push(list.hits);
        Ok(())
    }

    /// Gathers what the expansions give to each document.
    pub fn gather(&mut self)
        requires
            old(self).scored@.len() == old(self).expansions@.len(),
        ensures
            final(self).same_leg(*old(self)),
            final(self).scored == old(self).scored,
            final(self).counters == old(self).counters,
            final(self).gathered(),
    {
        self.aggregates = aggregate_hits(&self.scored);
    }

    /// The hits that the leg keeps: the best of the documents that a phrase lets
    /// through.
    pub open spec fn kept(self, scores: Seq<Double>, phrase: Option<Seq<bool>>) -> Seq<ScoredDoc> {
        scored_docs(
            best(ranked(admitted(docs_of(self.aggregates@), scores, phrase)), self.k as nat),
        )
    }

    /// Ends a structured leg. `scores` are the summed scores of the gathered
    /// documents. Where the query asks for a phrase, the text of every gathered
    /// document is read, and `phrase` says which of them hold it; `unread_row`
    /// is the first row that could not be read, and `words` is how its failure
    /// is worded. `unread` is the first document that could not be read.
    pub fn exact_structured_lexical_leg(
        self,
        segments: &Vec<SegmentFacts>,
        active: &ActiveFacts,
        scores: &Vec<Double>,
        phrase: Option<&Vec<bool>>,
        unread_row: Option<UnreadRow>,
        words: String,
        unread: Option<UnreadDocument>,
    ) -> (result: Result<ExactLexicalLeg, FusionError>)
        requires
            self.spec_is_idle() || self.gathered(),
            self.spec_is_idle() || scores@.len() == self.aggregates@.len(),
            forall|i: int| 0 <= i < scores@.len() ==> is_number(#[trigger] scores@[i]),
        ensures
            if self.spec_is_idle() {
                result matches Ok(leg) && leg.hits@ == Seq::<LexicalHit>::empty() && leg.sources
                    == self.sources && leg.counters == SearchCounters::spec_zero()
                    && leg.expansions == self.expansions
            } else if phrase is Some && rows_read(
                segments@,
                *active,
                self.sources@,
                docs_of(self.aggregates@),
                unread_row,
            ) is Err {
                result matches Err(error) && is_lexical_leg(error, LegFailureKind::Lexical, words@)
            } else {
                match joined_hits(
                    segments@,
                    *active,
                    self.sources@,
                    self.kept(
                        scores@,
                        match phrase {
                            Some(matches) => Some(matches@),
                            None => None,
                        },
                    ),
                    unread,
                ) {
                    Err(reason) => result matches Err(error) && is_lexical_leg(
                        error,
                        LegFailureKind::Lexical,
                        document_error_text(reason),
                    ),
                    Ok(joined) => result matches Ok(leg) && leg.hits@ == joined && leg.sources
                        == self.sources && leg.counters == self.counters && leg.expansions
                        == self.expansions,
                }
            },
    {
        if self.is_idle() {
            return Ok(
                ExactLexicalLeg {
                    hits: Vec::new(),
                    sources: self.sources,
                    counters: SearchCounters::zero(),
                    expansions: self.expansions,
                },
            );
        }
        if phrase.is_some() {
            match read_rows(segments, active, &self.sources, &self.aggregates, unread_row) {
                Ok(_) => {},
                Err(_) => {
                    return Err(
                        FusionError::Leg {
                            leg: FusionLeg::Lexical,
                            kind: LegFailureKind::Lexical,
                            detail: words,
                        },
                    );
                },
            }
        }
        let best_docs = rank_structured(&self.aggregates, scores, phrase, self.k);
        let scored = without_places(&best_docs);
        match join_hits(segments, active, &self.sources, &scored, unread) {
            Err(error) => Err(map_structured_leg_document_error(error)),
            Ok(hits) => Ok(
                ExactLexicalLeg {
                    hits,
                    sources: self.sources,
                    counters: self.counters,
                    expansions: self.expansions,
                },
            ),
        }
    }
}

fn without_places(hits: &Vec<RankedDoc>) -> (scored: Vec<ScoredDoc>)
    ensures
        scored@ == scored_docs(hits@),
{
    let mut scored: Vec<ScoredDoc> = Vec::with_capacity(hits.len());
    let mut at: usize = 0;
    while at < hits.len()
        invariant
            at <= hits@.len(),
            scored@ == scored_docs(hits@.take(at as int)),
        decreases hits.len() - at,
    {
        scored.push(ScoredDoc { doc: hits[at].doc, score: hits[at].score });
        at = at + 1;
        assert(scored@ == scored_docs(hits@.take(at as int)));
    }
    assert(hits@.take(at as int) == hits@);
    scored
}

} // verus!
