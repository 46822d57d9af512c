//! Quantized candidate selection followed by exact scores of the selected rows.

use crate::candidates::holds_worker;
use crate::candidates::ScanCandidate;
use crate::candidates::ScanStats;
use crate::error::overflow_error;
use crate::error::QueryError;
use crate::error::RescoreError;
use crate::error::ScanError;
use crate::error::StoreError;
use crate::exhaustive::interval_checks;
use crate::exhaustive::CHECK_INTERVAL;
use crate::exhaustive::RescoreCheckError;
use crate::exhaustive::VALUE_BYTES;
use crate::poll::check_query;
use crate::poll::halted;
use crate::poll::lemma_no_check;
use crate::poll::lemma_one_more_check;
use crate::poll::passed;
use crate::poll::StopPoll;
use crate::poll::StopSource;
use crate::pool::outranks;
use crate::pool::RowRange;
use crate::rank::best_with_ties;
use crate::rank::rank_items;
use crate::rank::ranked;
use crate::rank::truncate_to_k_with_score_ties;
use crate::score::Double;
use crate::score::Score;
use crate::search::scan_failure;
use vstd::prelude::*;

verus! {

/// Controls the candidate frontier of each segment.
///
/// The frontier is the smaller of the eligible rows and `k` times the
/// oversample, plus all coarse-score boundary ties. The limit bounds exact row
/// reads per segment, ties included; exceeding it is an error.
#[derive(Clone, Copy, Debug, PartialEq, Eq, Structural)]
pub struct ScanRescoreOptions {
    oversample: usize,
    max_candidates_per_segment: usize,
}

/// The failure that a rescoring refusal is reported as.
pub open spec fn rescore_failure(error: RescoreError) -> QueryError {
    QueryError::Scan(ScanError::Rescore(error))
}

fn rescore_error(error: RescoreError) -> (result: QueryError)
    ensures
        result == rescore_failure(error),
{
    QueryError::Scan(ScanError::Rescore(error))
}

impl ScanRescoreOptions {
    /// The frontier multiplier.
    pub closed spec fn spec_oversample(self) -> usize {
        self.oversample
    }

    /// The limit of exact row reads.
    pub closed spec fn spec_maximum(self) -> usize {
        self.max_candidates_per_segment
    }

    /// Creates explicit controls; neither value may be zero.
    pub fn new(oversample: usize, max_candidates_per_segment: usize) -> (result: Result<
        ScanRescoreOptions,
        RescoreError,
    >)
        ensures
            if oversample == 0 {
                result == Err::<ScanRescoreOptions, RescoreError>(RescoreError::ZeroOversample)
            } else if max_candidates_per_segment == 0 {
                result == Err::<ScanRescoreOptions, RescoreError>(RescoreError::ZeroCandidateLimit)
            } else {
                result matches Ok(options) && options.spec_oversample() == oversample
                    && options.spec_maximum() == max_candidates_per_segment
            },
    {
        if oversample == 0 {
            return Err(RescoreError::ZeroOversample);
        }
        if max_candidates_per_segment == 0 {
            return Err(RescoreError::ZeroCandidateLimit);
        }
        Ok(ScanRescoreOptions { oversample, max_candidates_per_segment })
    }

    /// Requested frontier multiplier before boundary ties.
    pub fn oversample(self) -> (value: usize)
        ensures
            value == self.spec_oversample(),
    {
        self.oversample
    }

    /// Hard limit of exact row reads per segment.
    pub fn max_candidates_per_segment(self) -> (value: usize)
        ensures
            value == self.spec_maximum(),
    {
        self.max_candidates_per_segment
    }

    /// Whether a number of candidates stays within the limit.
    pub open spec fn count_verdict(self, requested: usize) -> Result<(), QueryError> {
        if requested > self.spec_maximum() {
            Err(
                rescore_failure(
                    RescoreError::CandidateLimitExceeded {
                        requested,
                        maximum: self.spec_maximum(),
                    },
                ),
            )
        } else {
            Ok(())
        }
    }

    /// Checks a number of candidates against the limit.
    pub fn check_count(self, requested: usize) -> (result: Result<(), QueryError>)
        ensures
            result == self.count_verdict(requested),
    {
        if requested > self.max_candidates_per_segment {
            return Err(
                rescore_error(
                    RescoreError::CandidateLimitExceeded {
                        requested,
                        maximum: self.max_candidates_per_segment,
                    },
                ),
            );
        }
        Ok(())
    }

    /// The coarse frontier of one segment.
    pub open spec fn spec_frontier(self, k: usize, eligible: u64) -> Result<usize, QueryError> {
        let wanted = k * self.spec_oversample();
        if wanted > usize::MAX || eligible > usize::MAX {
            Err(rescore_failure(RescoreError::ArithmeticOverflow))
        } else {
            let frontier = if wanted <= eligible {
                wanted as usize
            } else {
                eligible as usize
            };
            match self.count_verdict(frontier) {
                Ok(_) => Ok(frontier),
                Err(error) => Err(error),
            }
        }
    }

    /// The coarse frontier of one segment.
    pub fn frontier(self, k: usize, eligible: u64) -> (result: Result<usize, QueryError>)
        ensures
            result == self.spec_frontier(k, eligible),
    {
        let wanted: usize = match k.checked_mul(self.oversample) {
            Some(wanted) => wanted,
            None => {
                return Err(rescore_error(RescoreError::ArithmeticOverflow));
            },
        };
        if eligible > usize::MAX as u64 {
            return Err(rescore_error(RescoreError::ArithmeticOverflow));
        }
        let rows: usize = eligible as usize;
        let frontier: usize = if wanted <= rows {
            wanted
        } else {
            rows
        };
        self.check_count(frontier)?;
        Ok(frontier)
    }
}

/// Work of rescored scans.
#[derive(Clone, Copy, Debug, PartialEq, Eq, Structural)]
pub struct ScanRescoreCounters {
    pub coarse_rows: u64,
    pub eligible_rows: u64,
    pub candidates_rescored: u64,
    pub coarse_bytes: u64,
    pub rescore_bytes: u64,
}

impl ScanRescoreCounters {
    /// Whether the first `n` counters can take more work.
    pub open spec fn fits_first(self, next: ScanRescoreCounters, n: nat) -> bool {
        &&& n >= 1 ==> self.coarse_rows + next.coarse_rows <= u64::MAX
        &&& n >= 2 ==> self.eligible_rows + next.eligible_rows <= u64::MAX
        &&& n >= 3 ==> self.candidates_rescored + next.candidates_rescored <= u64::MAX
        &&& n >= 4 ==> self.coarse_bytes + next.coarse_bytes <= u64::MAX
        &&& n >= 5 ==> self.rescore_bytes + next.rescore_bytes <= u64::MAX
    }

    /// Whether more work can be added.
    pub open spec fn fits(self, next: ScanRescoreCounters) -> bool {
        self.fits_first(next, 5)
    }

    /// The work with more added, up to the first counter that overflows.
    pub open spec fn partly_plus(self, next: ScanRescoreCounters) -> ScanRescoreCounters {
        ScanRescoreCounters {
            coarse_rows: if self.fits_first(next, 1) {
                (self.coarse_rows + next.coarse_rows) as u64
            } else {
                self.coarse_rows
            },
            eligible_rows: if self.fits_first(next, 2) {
                (self.eligible_rows + next.eligible_rows) as u64
            } else {
                self.eligible_rows
            },
            candidates_rescored: if self.fits_first(next, 3) {
                (self.candidates_rescored + next.candidates_rescored) as u64
            } else {
                self.candidates_rescored
            },
            coarse_bytes: if self.fits_first(next, 4) {
                (self.coarse_bytes + next.coarse_bytes) as u64
            } else {
                self.coarse_bytes
            },
            rescore_bytes: if self.fits_first(next, 5) {
                (self.rescore_bytes + next.rescore_bytes) as u64
            } else {
                self.rescore_bytes
            },
        }
    }

    /// The work with more added.
    pub open spec fn plus(self, next: ScanRescoreCounters) -> ScanRescoreCounters {
        ScanRescoreCounters {
            coarse_rows: (self.coarse_rows + next.coarse_rows) as u64,
            eligible_rows: (self.eligible_rows + next.eligible_rows) as u64,
            candidates_rescored: (self.candidates_rescored + next.candidates_rescored) as u64,
            coarse_bytes: (self.coarse_bytes + next.coarse_bytes) as u64,
            rescore_bytes: (self.rescore_bytes + next.rescore_bytes) as u64,
        }
    }
}

fn sum_of(left: u64, right: u64) -> (result: Result<u64, QueryError>)
    ensures
        result == if left + right <= u64::MAX {
            Ok((left + right) as u64)
        } else {
            Err(overflow_error())
        },
{
    match left.checked_add(right) {
        Some(sum) => Ok(sum),
        None => Err(QueryError::Scan(ScanError::ArithmeticOverflow)),
    }
}

/// Adds one segment's work to the total, counter by counter; the first that
/// overflows ends it.
pub fn accumulate(total: &mut ScanRescoreCounters, next: ScanRescoreCounters) -> (result: Result<
    (),
    QueryError,
>)
    ensures
        *final(total) == old(total).partly_plus(next),
        if old(total).fits(next) {
            result is Ok && *final(total) == old(total).plus(next)
        } else {
            result == Err::<(), QueryError>(overflow_error())
        },
{
    total.coarse_rows = sum_of(total.coarse_rows, next.coarse_rows)?;
    total.eligible_rows = sum_of(total.eligible_rows, next.eligible_rows)?;
    total.candidates_rescored = sum_of(total.candidates_rescored, next.candidates_rescored)?;
    total.coarse_bytes = sum_of(total.coarse_bytes, next.coarse_bytes)?;
    total.rescore_bytes = sum_of(total.rescore_bytes, next.rescore_bytes)?;
    Ok(())
}

/// The failure to read the row of one candidate, if there is one.
pub open spec fn row_failure(
    candidate: ScanCandidate,
    position: usize,
    values: usize,
    dimension: usize,
) -> Option<QueryError> {
    if candidate.row_id * dimension + dimension > usize::MAX {
        Some(overflow_error())
    } else if candidate.row_id * dimension + dimension > values {
        Some(
            rescore_failure(
                RescoreError::CandidateRowOutOfRange {
                    position,
                    row_index: candidate.row_id,
                    row_count: values / dimension,
                },
            ),
        )
    } else {
        None
    }
}

/// The first candidate whose row cannot be read is at `at`.
pub open spec fn first_unreadable(
    candidates: Seq<ScanCandidate>,
    values: usize,
    dimension: usize,
    at: int,
) -> bool {
    &&& 0 <= at < candidates.len()
    &&& row_failure(candidates[at], at as usize, values, dimension) is Some
    &&& forall|i: int|
        0 <= i < at ==> row_failure(#[trigger] candidates[i], i as usize, values, dimension) is None
}

/// Whether the rows of the first `n` candidates can be read.
pub open spec fn readable_up_to(
    candidates: Seq<ScanCandidate>,
    values: usize,
    dimension: usize,
    n: int,
) -> bool {
    forall|i: int|
        0 <= i < n ==> row_failure(#[trigger] candidates[i], i as usize, values, dimension) is None
}

/// The failure to select the rows of a rescoring that no row decides, if there
/// is one.
pub open spec fn selection_failure(
    options: ScanRescoreOptions,
    count: usize,
    values: usize,
    dimension: usize,
    room: Result<(), StoreError>,
) -> Option<QueryError> {
    if dimension == 0 {
        Some(QueryError::Scan(ScanError::ZeroDimension))
    } else if values % dimension != 0 {
        Some(QueryError::Scan(ScanError::RowDataLength { dimension, actual: values }))
    } else {
        match options.count_verdict(count) {
            Err(error) => Some(error),
            Ok(_) => match room {
                Err(error) => Some(QueryError::Store(error)),
                Ok(_) => None,
            },
        }
    }
}

/// Selects the values of the candidates' rows, with a stop check at the start
/// and every [`CHECK_INTERVAL`] candidates. `values` is the length of the row
/// data and `room` says whether there was memory for the selection.
pub fn select_rows<S: StopSource>(
    options: ScanRescoreOptions,
    candidates: &Vec<ScanCandidate>,
    values: usize,
    dimension: usize,
    room: Result<(), StoreError>,
    poll: &mut StopPoll<S>,
) -> (result: Result<Vec<RowRange>, QueryError>)
    requires
        old(poll).wf(),
    ensures
        final(poll).follows(*old(poll)),
        final(poll).wf(),
        old(poll).found matches Some(stop) ==> result == Err::<Vec<RowRange>, QueryError>(
            scan_failure(stop),
        ),
        match result {
            Ok(rows) => {
                &&& selection_failure(
                    options,
                    candidates@.len() as usize,
                    values,
                    dimension,
                    room,
                ) is None
                &&& passed(
                    old(poll).answers(),
                    final(poll).answers(),
                    1 + interval_checks(candidates@.len()),
                )
                &&& rows@.len() == candidates@.len()
                &&& forall|i: int|
                    0 <= i < candidates@.len() ==> (#[trigger] rows@[i]).start
                        == candidates@[i].row_id * dimension && rows@[i].end
                        == candidates@[i].row_id * dimension + dimension && rows@[i].end <= values
            },
            Err(error) => {
                let (before, after) = (old(poll).answers(), final(poll).answers());
                let failure = selection_failure(
                    options,
                    candidates@.len() as usize,
                    values,
                    dimension,
                    room,
                );
                ||| {
                    &&& halted(before, after, 1 + interval_checks(candidates@.len())) matches Some(
                        stop,
                    ) && error == scan_failure(stop)
                    &&& after.len() > before.len() + 1 ==> {
                        &&& failure is None
                        &&& readable_up_to(
                            candidates@,
                            values,
                            dimension,
                            (after.len() - before.len() - 2) * CHECK_INTERVAL,
                        )
                    }
                }
                ||| Some(error) == failure && passed(before, after, 1)
                ||| failure is None && exists|at: int| #[trigger]
                    first_unreadable(candidates@, values, dimension, at) && Some(error)
                        == row_failure(candidates@[at], at as usize, values, dimension) && passed(
                        before,
                        after,
                        1 + interval_checks((at + 1) as nat),
                    )
            },
        },
{
    let ghost before = poll.answers();
    let checked = check_query(poll);
    proof {
        lemma_no_check(before);
        lemma_one_more_check(before, before, poll.answers(), 0, poll.answers().last());
    }
    checked?;
    if dimension == 0 {
        return Err(QueryError::Scan(ScanError::ZeroDimension));
    }
    if values % dimension != 0 {
        return Err(QueryError::Scan(ScanError::RowDataLength { dimension, actual: values }));
    }
    options.check_count(candidates.len())?;
    if let Err(error) = room {
        return Err(QueryError::Store(error));
    }
    let mut rows: Vec<RowRange> = Vec::with_capacity(candidates.len());
    let mut position: usize = 0;
    while position < candidates.len()
        invariant
            position <= candidates@.len(),
            dimension > 0,
            selection_failure(options, candidates@.len() as usize, values, dimension, room) is None,
            before == old(poll).answers(),
            poll.wf(),
            poll.follows(*old(poll)),
            old(poll).found is None,
            passed(before, poll.answers(), 1 + interval_checks(position as nat)),
            rows@.len() == position,
            forall|i: int|
                0 <= i < position ==> row_failure(
                    #[trigger] candidates@[i],
                    i as usize,
                    values,
                    dimension,
                ) is None,
            forall|i: int|
                0 <= i < position ==> (#[trigger] rows@[i]).start == candidates@[i].row_id
                    * dimension && rows@[i].end == candidates@[i].row_id * dimension + dimension
                    && rows@[i].end <= values,
        decreases candidates.len() - position,
    {
        if position % CHECK_INTERVAL == 0 {
            let ghost between = poll.answers();
            let checked = check_query(poll);
            proof {
                lemma_one_more_check(
                    before,
                    between,
                    poll.answers(),
                    1 + interval_checks(position as nat),
                    poll.answers().last(),
                );
            }
            checked?;
        }
        let row_id: usize = candidates[position].row_id;
        assert(0 <= row_id * dimension) by (nonlinear_arith);
        let start: usize = match row_id.checked_mul(dimension) {
            Some(start) => start,
            None => {
                assert(first_unreadable(candidates@, values, dimension, position as int));
                return Err(QueryError::Scan(ScanError::ArithmeticOverflow));
            },
        };
        let end: usize = match start.checked_add(dimension) {
            Some(end) => end,
            None => {
                assert(first_unreadable(candidates@, values, dimension, position as int));
                return Err(QueryError::Scan(ScanError::ArithmeticOverflow));
            },
        };
        if end > values {
            assert(first_unreadable(candidates@, values, dimension, position as int));
            return Err(
                rescore_error(
                    RescoreError::CandidateRowOutOfRange {
                        position,
                        row_index: row_id,
                        row_count: values / dimension,
                    },
                ),
            );
        }
        rows.push(RowRange { start, end });
        position = position + 1;
    }
    Ok(rows)
}

/// An exact score and what single precision makes of it.
#[derive(Clone, Copy, Debug, PartialEq, Eq, Structural)]
pub struct ExactScore {
    pub exact: Double,
    pub narrowed: Score,
}

/// The best score that could not be narrowed among the first `n`, and its row.
pub open spec fn unnarrowed(
    candidates: Seq<ScanCandidate>,
    scores: Seq<ExactScore>,
    n: nat,
) -> Option<(usize, Double)>
    decreases n,
{
    if n == 0 {
        None
    } else {
        let earlier = unnarrowed(candidates, scores, (n - 1) as nat);
        let score = scores[n - 1];
        if !score.narrowed.spec_is_finite() && outranks(
            candidates[n - 1].row_id,
            score.exact,
            earlier,
        ) {
            Some((candidates[n - 1].row_id, score.exact))
        } else {
            earlier
        }
    }
}

/// The worst narrowed score among the first `n`.
pub open spec fn worst_narrowed(scores: Seq<ExactScore>, n: nat) -> Option<Score>
    decreases n,
{
    if n == 0 {
        None
    } else {
        let earlier = worst_narrowed(scores, (n - 1) as nat);
        let score = scores[n - 1].narrowed;
        if !score.spec_is_finite() {
            earlier
        } else {
            match earlier {
                None => Some(score),
                Some(worst) => if score.order() < worst.order() {
                    Some(score)
                } else {
                    earlier
                },
            }
        }
    }
}

/// The candidates with exact scores in place of coarse ones, where single
/// precision holds them.
pub open spec fn rescored(candidates: Seq<ScanCandidate>, scores: Seq<ExactScore>) -> Seq<
    ScanCandidate,
> {
    Seq::new(
        candidates.len(),
        |i: int|
            if i < scores.len() && scores[i].narrowed.spec_is_finite() {
                ScanCandidate { row_id: candidates[i].row_id, score: scores[i].narrowed }
            } else {
                candidates[i]
            },
    )
}

/// Takes the exact scores in candidate order.
pub fn set_exact_scores(candidates: &mut Vec<ScanCandidate>, scores: &Vec<ExactScore>)
    ensures
        final(candidates)@ == rescored(old(candidates)@, scores@),
{
    let ghost coarse = candidates@;
    let mut at: usize = 0;
    while at < scores.len() && at < candidates.len()
        invariant
            at <= scores@.len(),
            at <= candidates@.len(),
            candidates@.len() == coarse.len(),
            forall|i: int|
                0 <= i < at ==> candidates@[i] == #[trigger] rescored(coarse, scores@)[i],
            forall|i: int| at <= i < coarse.len() ==> candidates@[i] == #[trigger] coarse[i],
        decreases scores.len() - at,
    {
        let row_id: usize = candidates[at].row_id;
        assert(candidates@[at as int] == coarse[at as int]);
        if scores[at].narrowed.is_finite() {
            candidates.set(at, ScanCandidate { row_id, score: scores[at].narrowed });
        }
        at = at + 1;
    }
    assert forall|i: int| 0 <= i < coarse.len() implies candidates@[i] == #[trigger] rescored(
        coarse,
        scores@,
    )[i] by {
        if i >= at {
            assert(candidates@[i] == coarse[i]);
        }
    }
    assert(candidates@ == rescored(coarse, scores@));
}

/// What rescoring returns besides the candidates.
#[derive(Clone, Copy, Debug, PartialEq, Eq, Structural)]
pub struct Rescored {
    pub counters: ScanRescoreCounters,
    /// Every eligible row was rescored.
    pub exhaustive: bool,
    /// Score of the farthest row, where every eligible row was rescored.
    pub worst: Option<Score>,
}

/// Whether the caller of a rescoring becomes one of the scan's workers: it
/// scored a row, and it is not listed yet.
pub open spec fn joins_workers(stats: ScanStats, scores: Seq<ExactScore>, caller: u64) -> bool {
    scores.len() > 0 && !stats.worker_thread_ids@.contains(caller)
}

/// The failure to complete a rescoring, if there is one.
pub open spec fn completion_failure(
    candidates: Seq<ScanCandidate>,
    stats: ScanStats,
    scores: Seq<ExactScore>,
    dimension: usize,
    caller: u64,
    room: Result<(), StoreError>,
) -> Option<QueryError> {
    let values = scores.len() * dimension;
    if scores.len() > candidates.len() {
        Some(overflow_error())
    } else {
        match unnarrowed(candidates, scores, scores.len()) {
            Some(held) => Some(QueryError::Scan(ScanError::NonFiniteScore { row_id: held.0 })),
            None => if values * VALUE_BYTES > u64::MAX || stats.dims_touched + values > u64::MAX
                || stats.bytes_read + values * VALUE_BYTES > u64::MAX {
                Some(overflow_error())
            } else {
                match room {
                    Err(error) if joins_workers(stats, scores, caller) => Some(
                        QueryError::Store(error),
                    ),
                    _ => None,
                }
            },
        }
    }
}

/// Whether the sums with the values of the scored rows fit: those of the values,
/// and those of the bytes where `bytes` asks for them.
pub open spec fn work_fits(
    candidates: Seq<ScanCandidate>,
    stats: ScanStats,
    scores: Seq<ExactScore>,
    dimension: usize,
    bytes: bool,
) -> bool {
    let values = scores.len() * dimension;
    &&& scores.len() <= candidates.len()
    &&& unnarrowed(candidates, scores, scores.len()) is None
    &&& values * VALUE_BYTES <= u64::MAX
    &&& stats.dims_touched + values <= u64::MAX
    &&& bytes ==> stats.bytes_read + values * VALUE_BYTES <= u64::MAX
}

/// How a rescoring is completed whose candidates have their exact scores.
pub open spec fn is_completed(
    before: Seq<ScanCandidate>,
    stats_before: ScanStats,
    scores: Seq<ExactScore>,
    dimension: usize,
    k: usize,
    eligible: u64,
    caller: u64,
    room: Result<(), StoreError>,
    after: Seq<ScanCandidate>,
    stats_after: ScanStats,
    result: Result<Rescored, QueryError>,
) -> bool {
    let scored = scores.len();
    let values = scored * dimension;
    let failure = completion_failure(before, stats_before, scores, dimension, caller, room);
    &&& stats_after.dims_touched == if work_fits(before, stats_before, scores, dimension, false) {
        (stats_before.dims_touched + values) as u64
    } else {
        stats_before.dims_touched
    }
    &&& stats_after.bytes_read == if work_fits(before, stats_before, scores, dimension, true) {
        (stats_before.bytes_read + values * VALUE_BYTES) as u64
    } else {
        stats_before.bytes_read
    }
    &&& match failure {
        Some(error) => {
            &&& result == Err::<Rescored, QueryError>(error)
            &&& after == before
            &&& stats_after.worker_thread_ids@ == stats_before.worker_thread_ids@
            &&& stats_after.threads_used == stats_before.threads_used
        },
        None => {
            &&& result == Ok::<Rescored, QueryError>(
                Rescored {
                    counters: ScanRescoreCounters {
                        coarse_rows: (stats_before.dims_touched / dimension as u64),
                        eligible_rows: eligible,
                        candidates_rescored: scored as u64,
                        coarse_bytes: stats_before.bytes_read,
                        rescore_bytes: (values * VALUE_BYTES) as u64,
                    },
                    exhaustive: scored == eligible,
                    worst: if scored == eligible {
                        worst_narrowed(scores, scored)
                    } else {
                        None
                    },
                },
            )
            &&& after == best_with_ties(ranked(before), k as nat)
            &&& stats_after.worker_thread_ids@ == if joins_workers(stats_before, scores, caller) {
                stats_before.worker_thread_ids@.push(caller)
            } else {
                stats_before.worker_thread_ids@
            }
            &&& stats_after.threads_used == stats_after.worker_thread_ids@.len()
        },
    }
}

/// Completes a rescoring whose candidates have their exact scores: accounts for
/// the work, ranks, and keeps the best `k` with ties. A score that single
/// precision cannot hold is an error, reported for the best such score whatever
/// the row order. `room` says whether there was memory to list the caller among
/// the workers, and only counts where it has to be listed.
pub fn complete_rescoring(
    candidates: &mut Vec<ScanCandidate>,
    stats: &mut ScanStats,
    scores: &Vec<ExactScore>,
    dimension: usize,
    k: usize,
    eligible: u64,
    caller: u64,
    room: Result<(), StoreError>,
) -> (result: Result<Rescored, QueryError>)
    requires
        dimension > 0,
    ensures
        is_completed(
            old(candidates)@,
            *old(stats),
            scores@,
            dimension,
            k,
            eligible,
            caller,
            room,
            final(candidates)@,
            *final(stats),
            result,
        ),
{
    let scored: usize = scores.len();
    if scored > candidates.len() {
        return Err(QueryError::Scan(ScanError::ArithmeticOverflow));
    }
    let ghost coarse = candidates@;
    let mut narrowing: Option<(usize, Double)> = None;
    let mut worst: Option<Score> = None;
    let mut at: usize = 0;
    while at < scored
        invariant
            at <= scored,
            scored == scores@.len(),
            scored <= coarse.len(),
            candidates@ == coarse,
            narrowing == unnarrowed(coarse, scores@, at as nat),
            worst == worst_narrowed(scores@, at as nat),
        decreases scored - at,
    {
        let score = scores[at];
        if !score.narrowed.is_finite() {
            let row_id: usize = candidates[at].row_id;
            let replace = match narrowing {
                None => true,
                Some(held) => held.1.below(score.exact) || (!score.exact.below(held.1) && row_id
                    < held.0),
            };
            if replace {
                narrowing = Some((row_id, score.exact));
            }
        } else {
            let lower = match worst {
                None => true,
                Some(previous) => score.narrowed.below(previous),
            };
            if lower {
                worst = Some(score.narrowed);
            }
        }
        at = at + 1;
    }
    if let Some(held) = narrowing {
        return Err(QueryError::Scan(ScanError::NonFiniteScore { row_id: held.0 }));
    }
    assert(0 <= scored * dimension) by (nonlinear_arith);
    let values: u64 = match (scored as u64).checked_mul(dimension as u64) {
        Some(values) => values,
        None => {
            return Err(QueryError::Scan(ScanError::ArithmeticOverflow));
        },
    };
    let bytes: u64 = match values.checked_mul(VALUE_BYTES) {
        Some(bytes) => bytes,
        None => {
            return Err(QueryError::Scan(ScanError::ArithmeticOverflow));
        },
    };
    let counters = ScanRescoreCounters {
        coarse_rows: stats.dims_touched / dimension as u64,
        eligible_rows: eligible,
        candidates_rescored: scored as u64,
        coarse_bytes: stats.bytes_read,
        rescore_bytes: bytes,
    };
    stats.dims_touched = sum_of(stats.dims_touched, values)?;
    stats.bytes_read = sum_of(stats.bytes_read, bytes)?;
    if scored > 0 && !holds_worker(&stats.worker_thread_ids, caller) {
        if let Err(error) = room {
            return Err(QueryError::Store(error));
        }
        stats.worker_thread_ids.push(caller);
    }
    stats.threads_used = stats.worker_thread_ids.len();
    rank_items(candidates);
    truncate_to_k_with_score_ties(candidates, k);
    let exhaustive = scored as u64 == eligible;
    Ok(
        Rescored {
            counters,
            exhaustive,
            worst: if exhaustive {
                worst
            } else {
                None
            },
        },
    )
}

/// Completes a rescoring with what the exact scoring of the selected rows
/// returned: its failure, a stop behind it, or the rescored candidates.
pub fn rescore<S: StopSource>(
    candidates: &mut Vec<ScanCandidate>,
    stats: &mut ScanStats,
    scored: Result<Vec<ExactScore>, RescoreCheckError>,
    dimension: usize,
    k: usize,
    eligible: u64,
    caller: u64,
    room: Result<(), StoreError>,
    poll: &mut StopPoll<S>,
) -> (result: Result<Rescored, QueryError>)
    requires
        dimension > 0,
        old(poll).wf(),
    ensures
        final(poll).follows(*old(poll)),
        final(poll).wf(),
        match scored {
            Err(failure) => {
                &&& result == Err::<Rescored, QueryError>(failure.spec_report())
                &&& *final(poll) == *old(poll)
                &&& final(candidates)@ == old(candidates)@
                &&& *final(stats) == *old(stats)
            },
            Ok(scores) => {
                let answer = final(poll).answers().last();
                &&& final(poll).answers() == old(poll).answers().push(answer)
                &&& old(poll).found matches Some(stop) ==> answer == Err::<(), ScanError>(stop)
                &&& match answer {
                    Err(stop) => {
                        &&& result == Err::<Rescored, QueryError>(scan_failure(stop))
                        &&& final(candidates)@ == rescored(old(candidates)@, scores@)
                        &&& *final(stats) == *old(stats)
                    },
                    Ok(_) => is_completed(
                        rescored(old(candidates)@, scores@),
                        *old(stats),
                        scores@,
                        dimension,
                        k,
                        eligible,
                        caller,
                        room,
                        final(candidates)@,
                        *final(stats),
                        result,
                    ),
                }
            },
        },
{
    match scored {
        Err(failure) => Err(failure.report()),
        Ok(scores) => {
            set_exact_scores(candidates, &scores);
            check_query(poll)?;
            complete_rescoring(
                candidates,
                stats,
                &scores,
                dimension,
                k,
                eligible,
                caller,
                room,
            )
        },
    }
}

/// A frontier is never larger than the limit, the eligible rows or what was
/// asked for.
pub proof fn lemma_frontier_is_bounded(options: ScanRescoreOptions, k: usize, eligible: u64)
    ensures
        options.spec_frontier(k, eligible) matches Ok(frontier) ==> {
            &&& frontier <= options.spec_maximum()
            &&& frontier <= eligible
            &&& frontier <= k * options.spec_oversample()
        },
{
    assert(0 <= k * options.spec_oversample()) by (nonlinear_arith);
}

} // verus!
