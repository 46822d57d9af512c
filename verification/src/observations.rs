//! An explicit record of the scoring work of hybrid queries, for tests.

use crate::identity::PhysicalIdentity;
use vstd::prelude::*;

verus! {

/// Scoring calls of hybrid queries, independent of their own work reports.
#[derive(Debug)]
pub struct HybridScoreTestObservations {
    /// Rows that the vector cross-scorer read.
    pub vector_rows: Vec<PhysicalIdentity>,
    /// Rows that were sent to the lexical scorer.
    pub lexical_rows: Vec<PhysicalIdentity>,
    /// Most bytes that the cross-score cache held at once.
    pub cache_peak_bytes: u64,
    /// Vector and lexical capacities before each round.
    pub candidate_start_capacities: Vec<(usize, usize)>,
    /// Most bytes that the candidate buffers held at once.
    pub candidate_peak_bytes: u64,
    /// Capacity for the union before each round.
    pub union_start_capacities: Vec<usize>,
    /// Most bytes that the union held at once.
    pub union_peak_bytes: u64,
}

/// What was observed: the scored rows, the capacities that rounds started with,
/// and the largest sizes.
#[verifier::ext_equal]
pub struct ObservedScoring {
    pub vector_rows: Seq<PhysicalIdentity>,
    pub lexical_rows: Seq<PhysicalIdentity>,
    pub cache_peak_bytes: u64,
    pub candidate_start_capacities: Seq<(usize, usize)>,
    pub candidate_peak_bytes: u64,
    pub union_start_capacities: Seq<usize>,
    pub union_peak_bytes: u64,
}

impl View for HybridScoreTestObservations {
    type V = ObservedScoring;

    open spec fn view(&self) -> ObservedScoring {
        ObservedScoring {
            vector_rows: self.vector_rows@,
            lexical_rows: self.lexical_rows@,
            cache_peak_bytes: self.cache_peak_bytes,
            candidate_start_capacities: self.candidate_start_capacities@,
            candidate_peak_bytes: self.candidate_peak_bytes,
            union_start_capacities: self.union_start_capacities@,
            union_peak_bytes: self.union_peak_bytes,
        }
    }
}

/// Where observations go: nowhere, unless a window is open.
#[derive(Debug)]
pub struct HybridScoreObserver {
    pub observations: Option<HybridScoreTestObservations>,
    /// Rounds do not reuse cross-scores.
    pub fresh_rounds: bool,
}

impl View for HybridScoreObserver {
    type V = Option<ObservedScoring>;

    open spec fn view(&self) -> Option<ObservedScoring> {
        match self.observations {
            Some(seen) => Some(seen@),
            None => None,
        }
    }
}

/// The larger of two numbers of bytes.
pub open spec fn larger(left: u64, right: u64) -> u64 {
    if left < right {
        right
    } else {
        left
    }
}

/// A window of observations in which nothing was seen yet.
pub open spec fn nothing_seen() -> ObservedScoring {
    ObservedScoring {
        vector_rows: Seq::empty(),
        lexical_rows: Seq::empty(),
        cache_peak_bytes: 0,
        candidate_start_capacities: Seq::empty(),
        candidate_peak_bytes: 0,
        union_start_capacities: Seq::empty(),
        union_peak_bytes: 0,
    }
}

/// The window behind a row that the vector cross-scorer reads.
pub open spec fn saw_vector_row(
    seen: Option<ObservedScoring>,
    row: PhysicalIdentity,
) -> Option<ObservedScoring> {
    match seen {
        Some(seen) => Some(ObservedScoring { vector_rows: seen.vector_rows.push(row), ..seen }),
        None => None,
    }
}

/// The window behind rows that are sent to the lexical scorer.
pub open spec fn saw_lexical_rows(
    seen: Option<ObservedScoring>,
    rows: Seq<PhysicalIdentity>,
) -> Option<ObservedScoring> {
    match seen {
        Some(seen) => Some(ObservedScoring { lexical_rows: seen.lexical_rows + rows, ..seen }),
        None => None,
    }
}

/// The window behind a growth of the cross-score cache.
pub open spec fn saw_cache_bytes(seen: Option<ObservedScoring>, bytes: u64) -> Option<
    ObservedScoring,
> {
    match seen {
        Some(seen) => Some(
            ObservedScoring { cache_peak_bytes: larger(seen.cache_peak_bytes, bytes), ..seen },
        ),
        None => None,
    }
}

/// The window behind the start of a round.
pub open spec fn saw_round_start(
    seen: Option<ObservedScoring>,
    vector: usize,
    lexical: usize,
) -> Option<ObservedScoring> {
    match seen {
        Some(seen) => Some(
            ObservedScoring {
                candidate_start_capacities: seen.candidate_start_capacities.push((vector, lexical)),
                ..seen
            },
        ),
        None => None,
    }
}

/// The window behind the candidate buffers' growth.
pub open spec fn saw_candidate_bytes(seen: Option<ObservedScoring>, bytes: u64) -> Option<
    ObservedScoring,
> {
    match seen {
        Some(seen) => Some(
            ObservedScoring {
                candidate_peak_bytes: larger(seen.candidate_peak_bytes, bytes),
                ..seen
            },
        ),
        None => None,
    }
}

/// The window behind the start of a fusion.
pub open spec fn saw_union_start(seen: Option<ObservedScoring>, capacity: usize) -> Option<
    ObservedScoring,
> {
    match seen {
        Some(seen) => Some(
            ObservedScoring {
                union_start_capacities: seen.union_start_capacities.push(capacity),
                ..seen
            },
        ),
        None => None,
    }
}

/// The window behind a fusion.
pub open spec fn saw_union_bytes(seen: Option<ObservedScoring>, bytes: u64) -> Option<
    ObservedScoring,
> {
    match seen {
        Some(seen) => Some(
            ObservedScoring { union_peak_bytes: larger(seen.union_peak_bytes, bytes), ..seen },
        ),
        None => None,
    }
}

impl HybridScoreTestObservations {
    fn blank() -> (observations: HybridScoreTestObservations)
        ensures
            observations@ == nothing_seen(),
    {
        HybridScoreTestObservations {
            vector_rows: Vec::new(),
            lexical_rows: Vec::new(),
            cache_peak_bytes: 0,
            candidate_start_capacities: Vec::new(),
            candidate_peak_bytes: 0,
            union_start_capacities: Vec::new(),
            union_peak_bytes: 0,
        }
    }
}

/// Opens a window of observations; one that was open is discarded.
pub fn begin_hybrid_score_test_observations(observer: &mut HybridScoreObserver)
    ensures
        !final(observer).fresh_rounds,
        final(observer)@ == Some(nothing_seen()),
{
    observer.fresh_rounds = false;
    observer.observations = Some(HybridScoreTestObservations::blank());
}

/// Opens a window in which each round starts from an empty cross-score cache.
pub fn begin_hybrid_fresh_round_test_observations(observer: &mut HybridScoreObserver)
    ensures
        final(observer).fresh_rounds,
        final(observer)@ == Some(nothing_seen()),
{
    begin_hybrid_score_test_observations(observer);
    observer.fresh_rounds = true;
}

/// Closes the window and hands its observations out.
pub fn take_hybrid_score_test_observations(observer: &mut HybridScoreObserver) -> (observations:
    HybridScoreTestObservations)
    ensures
        !final(observer).fresh_rounds,
        final(observer)@ is None,
        observations@ == match old(observer)@ {
            Some(seen) => seen,
            None => nothing_seen(),
        },
{
    observer.fresh_rounds = false;
    match observer.observations.take() {
        Some(observations) => observations,
        None => HybridScoreTestObservations::blank(),
    }
}

impl HybridScoreObserver {
    /// No window is open.
    pub fn new() -> (observer: HybridScoreObserver)
        ensures
            observer@ is None,
            !observer.fresh_rounds,
    {
        HybridScoreObserver { observations: None, fresh_rounds: false }
    }

    /// Whether each round starts from an empty cross-score cache.
    pub fn fresh_round_test_control(&self) -> (fresh: bool)
        ensures
            fresh == self.fresh_rounds,
    {
        self.fresh_rounds
    }

    /// Whether a window is open.
    pub fn is_open(&self) -> (open: bool)
        ensures
            open == self@ is Some,
    {
        self.observations.is_some()
    }

    /// Observes a row that the vector cross-scorer reads.
    pub fn vector_row(&mut self, row: PhysicalIdentity)
        ensures
            final(self).fresh_rounds == old(self).fresh_rounds,
            final(self)@ == saw_vector_row(old(self)@, row),
    {
        match self.observations.take() {
            None => {},
            Some(mut seen) => {
                seen.vector_rows.push(row);
                self.observations = Some(seen);
            },
        }
    }

    /// Observes a row that is sent to the lexical scorer.
    pub fn lexical_row(&mut self, row: PhysicalIdentity)
        ensures
            final(self).fresh_rounds == old(self).fresh_rounds,
            final(self)@ == saw_lexical_rows(old(self)@, seq![row]),
    {
        match self.observations.take() {
            None => {},
            Some(mut seen) => {
                seen.lexical_rows.push(row);
                self.observations = Some(seen);
            },
        }
    }

    /// Observes what the cross-score cache holds while it grows.
    pub fn cache_bytes(&mut self, bytes: u64)
        ensures
            final(self).fresh_rounds == old(self).fresh_rounds,
            final(self)@ == saw_cache_bytes(old(self)@, bytes),
    {
        match self.observations.take() {
            None => {},
            Some(mut seen) => {
                if seen.cache_peak_bytes < bytes {
                    seen.cache_peak_bytes = bytes;
                }
                self.observations = Some(seen);
            },
        }
    }

    /// Observes the capacities that a round starts with.
    pub fn round_start(&mut self, vector: usize, lexical: usize)
        ensures
            final(self).fresh_rounds == old(self).fresh_rounds,
            final(self)@ == saw_round_start(old(self)@, vector, lexical),
    {
        match self.observations.take() {
            None => {},
            Some(mut seen) => {
                seen.candidate_start_capacities.push((vector, lexical));
                self.observations = Some(seen);
            },
        }
    }

    /// Observes what the candidate buffers hold at most.
    pub fn candidate_bytes(&mut self, bytes: u64)
        ensures
            final(self).fresh_rounds == old(self).fresh_rounds,
            final(self)@ == saw_candidate_bytes(old(self)@, bytes),
    {
        match self.observations.take() {
            None => {},
            Some(mut seen) => {
                if seen.candidate_peak_bytes < bytes {
                    seen.candidate_peak_bytes = bytes;
                }
                self.observations = Some(seen);
            },
        }
    }

    /// Observes the capacity for the union that a round starts with.
    pub fn union_start(&mut self, capacity: usize)
        ensures
            final(self).fresh_rounds == old(self).fresh_rounds,
            final(self)@ == saw_union_start(old(self)@, capacity),
    {
        match self.observations.take() {
            None => {},
            Some(mut seen) => {
                seen.union_start_capacities.push(capacity);
                self.observations = Some(seen);
            },
        }
    }

    /// Observes what the union holds at most.
    pub fn union_bytes(&mut self, bytes: u64)
        ensures
            final(self).fresh_rounds == old(self).fresh_rounds,
            final(self)@ == saw_union_bytes(old(self)@, bytes),
    {
        match self.observations.take() {
            None => {},
            Some(mut seen) => {
                if seen.union_peak_bytes < bytes {
                    seen.union_peak_bytes = bytes;
                }
                self.observations = Some(seen);
            },
        }
    }
}

} // verus!
