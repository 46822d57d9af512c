//! The exhaustive squared-distance scan of one row source.

use crate::candidates::ScanCandidate;
use crate::candidates::ScanOutcome;
use crate::candidates::ScanStats;
use crate::corpus::alive_at;
use crate::corpus::is_alive;
use crate::error::overflow_error;
use crate::error::QueryError;
use crate::error::RescoreError;
use crate::error::ScanError;
use crate::poll::check_query;
use crate::poll::halted;
use crate::poll::lemma_no_check;
use crate::poll::lemma_one_more_check;
use crate::poll::passed;
use crate::poll::StopPoll;
use crate::poll::StopSource;
use crate::rank::best_with_ties;
use crate::rank::lemma_ranked_is_permutation;
use crate::rank::rank_items;
use crate::rank::ranked;
use crate::rank::truncate_to_k_with_score_ties;
use crate::score::Score;
use crate::search::map_l2_rescore_error;
use crate::search::rescore_scan_error;
use crate::search::scan_failure;
use vstd::prelude::*;

verus! {

/// Rows between two stop checks.
pub const CHECK_INTERVAL: usize = 64;

/// Bytes of one single-precision value.
pub const VALUE_BYTES: u64 = 4;

/// Whether row data has the shape that a query needs.
pub open spec fn shape_verdict(dimension: usize, row_count: usize, values: usize) -> Result<
    (),
    QueryError,
> {
    if dimension == 0 {
        Err(QueryError::Scan(ScanError::ZeroDimension))
    } else if row_count * dimension > usize::MAX {
        Err(overflow_error())
    } else if values != row_count * dimension {
        Err(QueryError::Scan(ScanError::RowDataLength { dimension, actual: values }))
    } else {
        Ok(())
    }
}

/// Checks that row data has the shape that a query needs.
pub fn check_scan_shape(dimension: usize, row_count: usize, values: usize) -> (result: Result<
    (),
    QueryError,
>)
    ensures
        result == shape_verdict(dimension, row_count, values),
{
    if dimension == 0 {
        return Err(QueryError::Scan(ScanError::ZeroDimension));
    }
    match row_count.checked_mul(dimension) {
        None => Err(QueryError::Scan(ScanError::ArithmeticOverflow)),
        Some(expected) => {
            if values != expected {
                Err(QueryError::Scan(ScanError::RowDataLength { dimension, actual: values }))
            } else {
                Ok(())
            }
        },
    }
}

/// The live rows among the first `n`, in order.
pub open spec fn live_indices(alive: Seq<bool>, n: nat) -> Seq<u32>
    decreases n,
{
    if n == 0 {
        Seq::empty()
    } else {
        let earlier = live_indices(alive, (n - 1) as nat);
        if alive_at(alive, (n - 1) as nat) {
            earlier.push((n - 1) as u32)
        } else {
            earlier
        }
    }
}

/// Stop checks behind every [`CHECK_INTERVAL`] of `n` items, the first included.
pub open spec fn interval_checks(n: nat) -> nat {
    (n + CHECK_INTERVAL - 1) as nat / CHECK_INTERVAL as nat
}

/// Rows that can be addressed.
pub const ADDRESSABLE_ROWS: u64 = 0x1_0000_0000;

/// Stop checks of the gathering of live rows: one every [`CHECK_INTERVAL`] rows
/// that can be addressed and one at the end, or at the first row that cannot.
pub open spec fn gathering_checks(row_count: nat) -> nat {
    interval_checks(
        if row_count < ADDRESSABLE_ROWS {
            row_count
        } else {
            ADDRESSABLE_ROWS as nat
        },
    ) + 1
}

/// Gathers the live rows of a source, with a stop check every
/// [`CHECK_INTERVAL`] rows and one at the end. It fails only where a check
/// stops the query or a row cannot be addressed.
pub fn live_row_indices<S: StopSource>(row_count: usize, alive: &Vec<bool>, poll: &mut StopPoll<S>) -> (result:
    Result<Vec<u32>, QueryError>)
    requires
        old(poll).wf(),
    ensures
        final(poll).follows(*old(poll)),
        final(poll).wf(),
        old(poll).found matches Some(stop) ==> result == Err::<Vec<u32>, QueryError>(
            scan_failure(stop),
        ),
        ({
            let (before, after) = (old(poll).answers(), final(poll).answers());
            let checks = gathering_checks(row_count as nat);
            match result {
                Ok(rows) => {
                    &&& row_count <= ADDRESSABLE_ROWS
                    &&& rows@ == live_indices(alive@, row_count as nat)
                    &&& passed(before, after, checks)
                },
                Err(error) => {
                    ||| halted(before, after, checks) matches Some(stop) && error == scan_failure(
                        stop,
                    )
                    ||| {
                        &&& row_count > ADDRESSABLE_ROWS
                        &&& error == overflow_error()
                        &&& passed(before, after, checks)
                    }
                },
            }
        }),
{
    let ghost before = poll.answers();
    let mut rows: Vec<u32> = Vec::new();
    let mut row: usize = 0;
    proof {
        lemma_no_check(before);
    }
    while row < row_count
        invariant
            row <= row_count,
            row <= ADDRESSABLE_ROWS,
            before == old(poll).answers(),
            poll.wf(),
            poll.follows(*old(poll)),
            row == 0 ==> poll.found == old(poll).found,
            row > 0 ==> old(poll).found is None,
            passed(before, poll.answers(), interval_checks(row as nat)),
            rows@ == live_indices(alive@, row as nat),
        decreases row_count - row,
    {
        if row % CHECK_INTERVAL == 0 {
            let ghost between = poll.answers();
            let checked = check_query(poll);
            proof {
                lemma_one_more_check(
                    before,
                    between,
                    poll.answers(),
                    interval_checks(row as nat),
                    poll.answers().last(),
                );
            }
            checked?;
        }
        if row > u32::MAX as usize {
            return Err(QueryError::Scan(ScanError::ArithmeticOverflow));
        }
        let local_row: u32 = row as u32;
        if is_alive(alive, local_row) {
            rows.push(local_row);
        }
        row = row + 1;
    }
    let ghost between = poll.answers();
    let checked = check_query(poll);
    proof {
        lemma_one_more_check(
            before,
            between,
            poll.answers(),
            interval_checks(row_count as nat),
            poll.answers().last(),
        );
    }
    checked?;
    Ok(rows)
}

/// One rescored row: its negated squared distance in single precision.
#[derive(Clone, Copy, Debug, PartialEq, Eq, Structural)]
pub struct RescoredHit {
    pub row_index: usize,
    pub score: Score,
}

/// Rescored rows as scan candidates.
pub open spec fn rescored_candidates(hits: Seq<RescoredHit>) -> Seq<ScanCandidate> {
    hits.map_values(|hit: RescoredHit| ScanCandidate { row_id: hit.row_index, score: hit.score })
}

/// The first score that is not finite is at `at`.
pub open spec fn first_bad_score(hits: Seq<RescoredHit>, at: int) -> bool {
    &&& 0 <= at < hits.len()
    &&& !hits[at].score.spec_is_finite()
    &&& forall|i: int| 0 <= i < at ==> (#[trigger] hits[i]).score.spec_is_finite()
}

/// Whether every score is finite.
pub open spec fn all_finite(hits: Seq<RescoredHit>) -> bool {
    forall|i: int| 0 <= i < hits.len() ==> (#[trigger] hits[i]).score.spec_is_finite()
}

/// Whether an outcome is that of a scan of no live row.
pub open spec fn is_empty_scan(outcome: ScanOutcome, thread: u64) -> bool {
    &&& outcome.candidates@ == Seq::<ScanCandidate>::empty()
    &&& outcome.worst_score is None
    &&& outcome.stats.dims_touched == 0
    &&& outcome.stats.bytes_read == 0
    &&& outcome.stats.threads_used == 1
    &&& outcome.stats.worker_thread_ids@ == seq![thread]
}

/// The outcome of a scan of no live row.
pub fn empty_scan(thread: u64) -> (outcome: ScanOutcome)
    ensures
        is_empty_scan(outcome, thread),
{
    let mut worker_thread_ids: Vec<u64> = Vec::new();
    worker_thread_ids.push(thread);
    ScanOutcome {
        candidates: Vec::new(),
        worst_score: None,
        stats: ScanStats { dims_touched: 0, bytes_read: 0, threads_used: 1, worker_thread_ids },
    }
}

/// How an exhaustive scan ends whose live rows were all rescored.
pub open spec fn is_ranked_scan(
    hits: Seq<RescoredHit>,
    candidates_rescored: usize,
    dimension: usize,
    k: usize,
    thread: u64,
    result: Result<ScanOutcome, QueryError>,
) -> bool {
    match result {
        Ok(outcome) => {
            let order = ranked(rescored_candidates(hits));
            &&& all_finite(hits)
            &&& candidates_rescored * dimension * VALUE_BYTES <= u64::MAX
            &&& outcome.candidates@ == best_with_ties(order, k as nat)
            &&& outcome.worst_score == if hits.len() == 0 {
                None
            } else {
                Some(order.last().score)
            }
            &&& outcome.stats.dims_touched == candidates_rescored * dimension
            &&& outcome.stats.bytes_read == candidates_rescored * dimension * VALUE_BYTES
            &&& outcome.stats.threads_used == 1
            &&& outcome.stats.worker_thread_ids@ == seq![thread]
        },
        Err(error) => {
            ||| error matches QueryError::Scan(ScanError::NonFiniteScore { row_id }) && exists|
                at: int,
            |
                #[trigger] first_bad_score(hits, at) && hits[at].row_index == row_id
            ||| all_finite(hits) && candidates_rescored * dimension * VALUE_BYTES > u64::MAX
                && error == overflow_error()
        },
    }
}

/// Ranks the rescored live rows of an exhaustive scan, takes the worst score
/// before the cut, keeps the best `k` with ties, and accounts for the values
/// that were read.
pub fn rank_rescored(
    hits: &Vec<RescoredHit>,
    candidates_rescored: usize,
    dimension: usize,
    k: usize,
    thread: u64,
) -> (result: Result<ScanOutcome, QueryError>)
    ensures
        is_ranked_scan(hits@, candidates_rescored, dimension, k, thread, result),
{
    let mut candidates: Vec<ScanCandidate> = Vec::with_capacity(hits.len());
    let mut at: usize = 0;
    while at < hits.len()
        invariant
            at <= hits@.len(),
            forall|i: int| 0 <= i < at ==> (#[trigger] hits@[i]).score.spec_is_finite(),
            candidates@ == rescored_candidates(hits@.take(at as int)),
        decreases hits.len() - at,
    {
        let hit = hits[at];
        if !hit.score.is_finite() {
            assert(first_bad_score(hits@, at as int));
            return Err(QueryError::Scan(ScanError::NonFiniteScore { row_id: hit.row_index }));
        }
        candidates.push(ScanCandidate { row_id: hit.row_index, score: hit.score });
        at = at + 1;
        assert(candidates@ == rescored_candidates(hits@.take(at as int)));
    }
    assert(hits@.take(at as int) == hits@);
    proof {
        lemma_ranked_is_permutation(candidates@);
    }
    rank_items(&mut candidates);
    let worst_score = if candidates.len() == 0 {
        None
    } else {
        Some(candidates[candidates.len() - 1].score)
    };
    truncate_to_k_with_score_ties(&mut candidates, k);
    assert(0 <= candidates_rescored * dimension) by (nonlinear_arith);
    let dims_touched: u64 = match (candidates_rescored as u64).checked_mul(dimension as u64) {
        Some(product) => product,
        None => {
            return Err(QueryError::Scan(ScanError::ArithmeticOverflow));
        },
    };
    let bytes_read: u64 = match dims_touched.checked_mul(VALUE_BYTES) {
        Some(product) => product,
        None => {
            return Err(QueryError::Scan(ScanError::ArithmeticOverflow));
        },
    };
    let mut worker_thread_ids: Vec<u64> = Vec::new();
    worker_thread_ids.push(thread);
    Ok(
        ScanOutcome {
            candidates,
            worst_score,
            stats: ScanStats { dims_touched, bytes_read, threads_used: 1, worker_thread_ids },
        },
    )
}

/// What an exhaustive scan does behind its checks of the row data.
#[derive(Debug)]
pub enum SquaredL2Plan {
    /// No row is live: there is nothing to score.
    Finished(ScanOutcome),
    /// These live rows are to be scored exactly.
    Rescore(Vec<u32>),
}

/// Begins an exhaustive scan: checks the shape of the row data and gathers the
/// live rows.
pub fn plan_squared_l2<S: StopSource>(
    dimension: usize,
    row_count: usize,
    values: usize,
    alive: &Vec<bool>,
    thread: u64,
    poll: &mut StopPoll<S>,
) -> (result: Result<SquaredL2Plan, QueryError>)
    requires
        old(poll).wf(),
    ensures
        final(poll).follows(*old(poll)),
        final(poll).wf(),
        match shape_verdict(dimension, row_count, values) {
            Err(error) => {
                &&& result == Err::<SquaredL2Plan, QueryError>(error)
                &&& *final(poll) == *old(poll)
            },
            Ok(_) => {
                let (before, after) = (old(poll).answers(), final(poll).answers());
                let checks = gathering_checks(row_count as nat);
                &&& old(poll).found matches Some(stop) ==> result == Err::<
                    SquaredL2Plan,
                    QueryError,
                >(scan_failure(stop))
                &&& match result {
                    Ok(plan) => {
                        &&& row_count <= ADDRESSABLE_ROWS
                        &&& passed(before, after, checks)
                        &&& match plan {
                            SquaredL2Plan::Finished(outcome) => {
                                &&& live_indices(alive@, row_count as nat).len() == 0
                                &&& is_empty_scan(outcome, thread)
                            },
                            SquaredL2Plan::Rescore(rows) => {
                                &&& rows@.len() > 0
                                &&& rows@ == live_indices(alive@, row_count as nat)
                            },
                        }
                    },
                    Err(error) => {
                        ||| halted(before, after, checks) matches Some(stop) && error
                            == scan_failure(stop)
                        ||| {
                            &&& row_count > ADDRESSABLE_ROWS
                            &&& error == overflow_error()
                            &&& passed(before, after, checks)
                        }
                    },
                }
            },
        },
{
    check_scan_shape(dimension, row_count, values)?;
    let rows = live_row_indices(row_count, alive, poll)?;
    if rows.len() == 0 {
        Ok(SquaredL2Plan::Finished(empty_scan(thread)))
    } else {
        Ok(SquaredL2Plan::Rescore(rows))
    }
}

/// Rows that were scored exactly.
#[derive(Debug)]
pub struct RescoredRows {
    pub hits: Vec<RescoredHit>,
    pub candidates_rescored: usize,
}

/// Why the exact scoring of rows ended early.
#[derive(Debug)]
pub enum RescoreCheckError {
    /// The rows could not be scored.
    Rescore(RescoreError),
    /// A check between two rows ended the query.
    Check(QueryError),
}

impl RescoreCheckError {
    /// The failure of the query.
    pub open spec fn spec_report(self) -> QueryError {
        match self {
            RescoreCheckError::Rescore(error) => QueryError::Scan(rescore_scan_error(error)),
            RescoreCheckError::Check(error) => error,
        }
    }

    /// The failure of the query.
    pub fn report(self) -> (error: QueryError)
        ensures
            error == self.spec_report(),
    {
        match self {
            RescoreCheckError::Rescore(error) => map_l2_rescore_error(error),
            RescoreCheckError::Check(error) => error,
        }
    }
}

/// Completes an exhaustive scan with what the exact scoring of its live rows
/// returned: its failure, a stop, or the ranked rows.
pub fn scan_squared_l2<S: StopSource>(
    rescored: Result<RescoredRows, RescoreCheckError>,
    dimension: usize,
    k: usize,
    thread: u64,
    poll: &mut StopPoll<S>,
) -> (result: Result<ScanOutcome, QueryError>)
    requires
        old(poll).wf(),
    ensures
        final(poll).follows(*old(poll)),
        final(poll).wf(),
        match rescored {
            Err(failure) => {
                &&& *final(poll) == *old(poll)
                &&& result == Err::<ScanOutcome, QueryError>(failure.spec_report())
            },
            Ok(rows) => {
                let answer = final(poll).answers().last();
                &&& final(poll).answers() == old(poll).answers().push(answer)
                &&& old(poll).found matches Some(stop) ==> answer == Err::<(), ScanError>(stop)
                &&& match answer {
                    Err(stop) => result == Err::<ScanOutcome, QueryError>(scan_failure(stop)),
                    Ok(_) => is_ranked_scan(
                        rows.hits@,
                        rows.candidates_rescored,
                        dimension,
                        k,
                        thread,
                        result,
                    ),
                }
            },
        },
{
    match rescored {
        Err(failure) => Err(failure.report()),
        Ok(rows) => {
            check_query(poll)?;
            rank_rescored(&rows.hits, rows.candidates_rescored, dimension, k, thread)
        },
    }
}

/// Every live row of a source is scored exactly once, and no other.
pub proof fn lemma_live_indices_are_the_live_rows(alive: Seq<bool>, n: nat, row: u32)
    requires
        n <= u32::MAX + 1,
    ensures
        live_indices(alive, n).contains(row) <==> row < n && alive_at(alive, row as nat),
        live_indices(alive, n).no_duplicates(),
    decreases n,
{
    if n > 0 {
        let earlier = live_indices(alive, (n - 1) as nat);
        let rows = live_indices(alive, n);
        lemma_live_indices_are_the_live_rows(alive, (n - 1) as nat, row);
        lemma_live_indices_are_the_live_rows(alive, (n - 1) as nat, (n - 1) as u32);
        if alive_at(alive, (n - 1) as nat) {
            assert(rows.last() == (n - 1) as u32);
            assert(!earlier.contains((n - 1) as u32));
            if earlier.contains(row) {
                let i = choose|i: int| 0 <= i < earlier.len() && earlier[i] == row;
                assert(rows[i] == row);
            }
            if rows.contains(row) && row != n - 1 {
                let i = choose|i: int| 0 <= i < rows.len() && rows[i] == row;
                assert(earlier[i] == row);
            }
            assert(rows[rows.len() - 1] == (n - 1) as u32);
            assert forall|i: int, j: int| 0 <= i < rows.len() && 0 <= j < rows.len() && i != j
                implies rows[i] != rows[j] by {
                if i == rows.len() - 1 {
                    assert(earlier.contains(earlier[j]));
                } else if j == rows.len() - 1 {
                    assert(earlier.contains(earlier[i]));
                }
            }
        }
    }
}

} // verus!
