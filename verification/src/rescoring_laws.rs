//! What rescoring does to the rows of a scan, in terms of the rows and their scores.

use crate::candidates::ScanCandidate;
use crate::candidates::ScanOutcome;
use crate::candidates::ScanStats;
use crate::error::QueryError;
use crate::error::RescoreError;
use crate::error::ScanError;
use crate::error::StoreError;
use crate::exhaustive::live_indices;
use crate::exhaustive::plan_squared_l2;
use crate::exhaustive::rescored_candidates;
use crate::exhaustive::scan_squared_l2;
use crate::exhaustive::RescoreCheckError;
use crate::exhaustive::RescoredRows;
use crate::exhaustive::SquaredL2Plan;
use crate::poll::StopPoll;
use crate::poll::StopSource;
use crate::pool::RowRange;
use crate::rank::best_with_ties;
use crate::rank::ranked;
use crate::rescored_scan::accumulate;
use crate::rescored_scan::complete_rescoring;
use crate::rescored_scan::rescore;
use crate::rescored_scan::rescored;
use crate::rescored_scan::select_rows;
use crate::rescored_scan::set_exact_scores;
use crate::rescored_scan::unnarrowed;
use crate::rescored_scan::worst_narrowed;
use crate::rescored_scan::ExactScore;
use crate::rescored_scan::Rescored;
use crate::rescored_scan::ScanRescoreCounters;
use crate::rescored_scan::ScanRescoreOptions;
use crate::vector_laws::lemma_a_scan_keeps_the_nearest_rows;
use crate::vector_laws::lemma_live_rows_are_the_rows_marked_alive;
use crate::vector_laws::lemma_rescored_rows_keep_their_scores;
use crate::vector_laws::scanned_nearer;
use vstd::prelude::*;

verus! {

/// Each row takes its own exact score: row and place stay, a finite score replaces the
/// one before, and a row without one keeps what it had.
pub proof fn lemma_each_row_takes_its_own_score(
    candidates: &mut Vec<ScanCandidate>,
    scores: &Vec<ExactScore>,
    i: int,
)
    requires
        call_ensures(set_exact_scores, (candidates, scores), ()),
        0 <= i < old(candidates)@.len(),
    ensures
        final(candidates)@.len() == old(candidates)@.len(),
        final(candidates)@[i].row_id == old(candidates)@[i].row_id,
        i < scores@.len() && scores@[i].narrowed.spec_is_finite() ==> final(candidates)@[i].score
            == scores@[i].narrowed,
        i >= scores@.len() || !scores@[i].narrowed.spec_is_finite() ==> final(candidates)@[i].score
            == old(candidates)@[i].score,
{
}

proof fn lemma_the_worst_is_the_lowest(scores: Seq<ExactScore>, n: nat)
    requires
        n <= scores.len(),
    ensures
        match worst_narrowed(scores, n) {
            None => forall|i: int|
                0 <= i < n ==> !(#[trigger] scores[i]).narrowed.spec_is_finite(),
            Some(worst) => {
                &&& exists|i: int| 0 <= i < n && (#[trigger] scores[i]).narrowed == worst
                &&& forall|i: int|
                    0 <= i < n && (#[trigger] scores[i]).narrowed.spec_is_finite()
                        ==> scores[i].narrowed.order() >= worst.order()
            },
        },
    decreases n,
{
    if n > 0 {
        lemma_the_worst_is_the_lowest(scores, (n - 1) as nat);
        if worst_narrowed(scores, n) == Some(scores[n - 1].narrowed) {
            assert(scores[n - 1].narrowed == worst_narrowed(scores, n)->0);
        }
    }
}

proof fn lemma_the_widest_is_the_best(
    candidates: Seq<ScanCandidate>,
    scores: Seq<ExactScore>,
    n: nat,
)
    requires
        n <= scores.len(),
        n <= candidates.len(),
    ensures
        match unnarrowed(candidates, scores, n) {
            None => forall|i: int| 0 <= i < n ==> (#[trigger] scores[i]).narrowed.spec_is_finite(),
            Some(held) => {
                &&& exists|i: int|
                    0 <= i < n && !(#[trigger] scores[i]).narrowed.spec_is_finite()
                        && candidates[i].row_id == held.0 && scores[i].exact == held.1
                &&& forall|i: int|
                    0 <= i < n && !(#[trigger] scores[i]).narrowed.spec_is_finite()
                        ==> scores[i].exact.order() < held.1.order() || (scores[i].exact.order()
                        == held.1.order() && held.0 <= candidates[i].row_id)
            },
        },
    decreases n,
{
    if n > 0 {
        lemma_the_widest_is_the_best(candidates, scores, (n - 1) as nat);
        let (earlier, all) = (
            unnarrowed(candidates, scores, (n - 1) as nat),
            unnarrowed(candidates, scores, n),
        );
        if all is Some && all != earlier {
            assert(!scores[n - 1].narrowed.spec_is_finite());
        }
    }
}

/// A rescoring that ends well had a finite score for every row it scored, keeps the
/// nearest `k` rows with ties, and reports the farthest of the scored rows exactly where
/// every eligible row was scored.
pub proof fn lemma_a_rescoring_keeps_the_nearest(
    candidates: &mut Vec<ScanCandidate>,
    stats: &mut ScanStats,
    scores: &Vec<ExactScore>,
    dimension: usize,
    k: usize,
    eligible: u64,
    caller: u64,
    room: Result<(), StoreError>,
    result: Result<Rescored, QueryError>,
)
    requires
        call_ensures(
            complete_rescoring,
            (candidates, stats, scores, dimension, k, eligible, caller, room),
            result,
        ),
        result is Ok,
    ensures
        ({
            let rows = old(candidates)@;
            let found = final(candidates)@;
            let done = result->Ok_0;
            let values = scores@.len() * dimension;
            &&& scores@.len() <= rows.len()
            &&& forall|i: int|
                0 <= i < scores@.len() ==> (#[trigger] scores@[i]).narrowed.spec_is_finite()
            &&& rows.len() <= k ==> found.len() == rows.len()
            &&& rows.len() > k ==> found.len() >= k
            &&& k == 0 ==> found.len() == 0
            &&& found.to_multiset().subset_of(rows.to_multiset())
            &&& forall|i: int| 0 <= i < found.len() ==> rows.contains(#[trigger] found[i])
            &&& forall|i: int, j: int|
                0 <= i < j < found.len() ==> !scanned_nearer(
                    #[trigger] found[j],
                    #[trigger] found[i],
                )
            &&& forall|i: int|
                0 < k <= rows.len() && 0 <= i < rows.len() ==> (found.contains(#[trigger] rows[i])
                    <==> rows[i].score.order() >= found[k - 1].score.order())
            &&& done.exhaustive <==> scores@.len() == eligible
            &&& !done.exhaustive ==> done.worst is None
            &&& done.exhaustive && scores@.len() > 0 ==> (done.worst matches Some(worst) && (exists|
                i: int,
            |
                0 <= i < scores@.len() && (#[trigger] scores@[i]).narrowed == worst) && forall|
                i: int,
            |
                0 <= i < scores@.len() ==> (#[trigger] scores@[i]).narrowed.order()
                    >= worst.order())
            &&& done.exhaustive && scores@.len() == 0 ==> done.worst is None
            &&& done.counters.candidates_rescored == scores@.len()
            &&& done.counters.eligible_rows == eligible
            &&& done.counters.coarse_bytes == old(stats).bytes_read
            &&& done.counters.rescore_bytes == 4 * values
            &&& final(stats).dims_touched == old(stats).dims_touched + values
            &&& final(stats).bytes_read == old(stats).bytes_read + 4 * values
            &&& final(stats).threads_used == final(stats).worker_thread_ids@.len()
            &&& scores@.len() > 0 ==> final(stats).worker_thread_ids@.contains(caller)
            &&& scores@.len() == 0 ==> final(stats).worker_thread_ids@ == old(
                stats,
            ).worker_thread_ids@
        }),
{
    let rows = old(candidates)@;
    let n = scores@.len();
    lemma_a_scan_keeps_the_nearest_rows(rows, k as nat);
    lemma_the_worst_is_the_lowest(scores@, n);
    lemma_the_widest_is_the_best(rows, scores@, n);
    assert(rows.len() == old(candidates).len());
    let found = best_with_ties(ranked(rows), k as nat);
    assert forall|i: int| 0 < k <= rows.len() && 0 <= i < rows.len() implies (found.contains(
        #[trigger] rows[i],
    ) <==> rows[i].score.order() >= found[k - 1].score.order()) by {
        assert(rows.contains(rows[i]));
    }
    if n > 0 {
        let ids = old(stats).worker_thread_ids@;
        if !ids.contains(caller) {
            assert(ids.push(caller)[ids.len() as int] == caller);
        }
    }
}

/// A rescoring that meets scores too wide for single precision fails, with the row of
/// the best of them, and leaves the rows as they were.
pub proof fn lemma_a_wide_score_fails_a_rescoring(
    candidates: &mut Vec<ScanCandidate>,
    stats: &mut ScanStats,
    scores: &Vec<ExactScore>,
    dimension: usize,
    k: usize,
    eligible: u64,
    caller: u64,
    room: Result<(), StoreError>,
    result: Result<Rescored, QueryError>,
)
    requires
        call_ensures(
            complete_rescoring,
            (candidates, stats, scores, dimension, k, eligible, caller, room),
            result,
        ),
        scores@.len() <= old(candidates)@.len(),
        exists|i: int|
            0 <= i < scores@.len() && !(#[trigger] scores@[i]).narrowed.spec_is_finite(),
    ensures
        final(candidates)@ == old(candidates)@,
        exists|at: int|
            {
                &&& 0 <= at < scores@.len()
                &&& !(#[trigger] scores@[at]).narrowed.spec_is_finite()
                &&& result == Err::<Rescored, QueryError>(
                    QueryError::Scan(
                        ScanError::NonFiniteScore { row_id: old(candidates)@[at].row_id },
                    ),
                )
                &&& forall|i: int|
                    0 <= i < scores@.len() && !(#[trigger] scores@[i]).narrowed.spec_is_finite()
                        ==> scores@[i].exact.order() < scores@[at].exact.order() || (
                    scores@[i].exact.order() == scores@[at].exact.order() && old(
                        candidates,
                    )@[at].row_id <= old(candidates)@[i].row_id)
            },
{
    lemma_the_widest_is_the_best(old(candidates)@, scores@, scores@.len());
    let held = unnarrowed(old(candidates)@, scores@, scores@.len())->0;
    let at = choose|at: int|
        0 <= at < scores@.len() && !(#[trigger] scores@[at]).narrowed.spec_is_finite() && old(
            candidates,
        )@[at].row_id == held.0 && scores@[at].exact == held.1;
    assert(!scores@[at].narrowed.spec_is_finite());
}

/// The values that are read for a row are its own: `dimension` of them, from the row's
/// number times the dimension on.
pub proof fn lemma_a_row_reads_its_own_values<S: StopSource>(
    options: ScanRescoreOptions,
    candidates: &Vec<ScanCandidate>,
    values: usize,
    dimension: usize,
    room: Result<(), StoreError>,
    poll: &mut StopPoll<S>,
    result: Result<Vec<RowRange>, QueryError>,
)
    requires
        call_ensures(
            select_rows::<S>,
            (options, candidates, values, dimension, room, poll),
            result,
        ),
        result is Ok,
    ensures
        dimension > 0,
        room is Ok,
        candidates@.len() <= options.spec_maximum(),
        ({
            let rows = result->Ok_0@;
            &&& rows.len() == candidates@.len()
            &&& forall|i: int|
                0 <= i < rows.len() ==> (#[trigger] rows[i]).start == candidates@[i].row_id
                    * dimension && rows[i].end - rows[i].start == dimension && rows[i].end
                    <= values
        }),
{
    assert(candidates@.len() == candidates.len());
}

/// As many rows are rescored as were asked for times the oversampling, or all that are
/// eligible where there are fewer; more than the limit allows are refused.
pub proof fn lemma_the_frontier_is_what_was_asked_for(
    options: ScanRescoreOptions,
    k: usize,
    eligible: u64,
    result: Result<usize, QueryError>,
)
    requires
        call_ensures(ScanRescoreOptions::frontier, (options, k, eligible), result),
        k * options.spec_oversample() <= usize::MAX,
        eligible <= usize::MAX,
    ensures
        ({
            let wanted = k * options.spec_oversample();
            let width = if wanted <= eligible {
                wanted
            } else {
                eligible as int
            };
            match result {
                Ok(frontier) => frontier == width && width <= options.spec_maximum(),
                Err(error) => width > options.spec_maximum() && error == QueryError::Scan(
                    ScanError::Rescore(
                        RescoreError::CandidateLimitExceeded {
                            requested: width as usize,
                            maximum: options.spec_maximum(),
                        },
                    ),
                ),
            }
        }),
{
}

/// Counters are summed, each with its own, as long as every sum can be counted.
pub proof fn lemma_counters_are_summed(
    total: &mut ScanRescoreCounters,
    next: ScanRescoreCounters,
    result: Result<(), QueryError>,
)
    requires
        call_ensures(accumulate, (total, next), result),
    ensures
        result is Ok ==> {
            &&& final(total).coarse_rows == old(total).coarse_rows + next.coarse_rows
            &&& final(total).eligible_rows == old(total).eligible_rows + next.eligible_rows
            &&& final(total).candidates_rescored == old(total).candidates_rescored
                + next.candidates_rescored
            &&& final(total).coarse_bytes == old(total).coarse_bytes + next.coarse_bytes
            &&& final(total).rescore_bytes == old(total).rescore_bytes + next.rescore_bytes
        },
        result is Err <==> old(total).coarse_rows + next.coarse_rows > u64::MAX || old(
            total,
        ).eligible_rows + next.eligible_rows > u64::MAX || old(total).candidates_rescored
            + next.candidates_rescored > u64::MAX || old(total).coarse_bytes + next.coarse_bytes
            > u64::MAX || old(total).rescore_bytes + next.rescore_bytes > u64::MAX,
{
}

/// What an exhaustive scan scores is the live rows, each once and in order; a source
/// without one is finished with nothing found.
pub proof fn lemma_an_exhaustive_scan_scores_the_live_rows<S: StopSource>(
    dimension: usize,
    row_count: usize,
    values: usize,
    alive: &Vec<bool>,
    thread: u64,
    poll: &mut StopPoll<S>,
    result: Result<SquaredL2Plan, QueryError>,
)
    requires
        call_ensures(
            plan_squared_l2::<S>,
            (dimension, row_count, values, alive, thread, poll),
            result,
        ),
    ensures
        result matches Ok(SquaredL2Plan::Rescore(rows)) ==> {
            &&& rows@.len() > 0
            &&& forall|i: int|
                0 <= i < rows@.len() ==> {
                    let row = (#[trigger] rows@[i]) as int;
                    row < row_count && row < alive@.len() && alive@[row]
                }
            &&& forall|i: int, j: int|
                0 <= i < j < rows@.len() ==> (#[trigger] rows@[i]) < (#[trigger] rows@[j])
            &&& forall|row: u32|
                row < row_count && row < alive@.len() && #[trigger] alive@[row as int]
                    ==> rows@.contains(row)
        },
        result matches Ok(SquaredL2Plan::Finished(outcome)) ==> {
            &&& outcome.candidates@.len() == 0
            &&& outcome.worst_score is None
            &&& forall|row: u32|
                row < row_count && row < alive@.len() ==> !#[trigger] alive@[row as int]
        },
        result is Ok ==> dimension > 0 && row_count * dimension == values,
{
    if result is Ok {
        lemma_live_rows_are_the_rows_marked_alive(alive@, row_count as nat);
        let live = live_indices(alive@, row_count as nat);
        assert forall|row: u32|
            row < row_count && row < alive@.len() && #[trigger] alive@[row as int] implies live.len()
            > 0 by {
            assert(live.contains(row));
        }
    }
}

/// A scan of exact scores answers as their ranking does, unless it is stopped or the
/// scores could not be had.
pub proof fn lemma_an_exact_scan_answers_with_the_ranking<S: StopSource>(
    rescored: Result<RescoredRows, RescoreCheckError>,
    dimension: usize,
    k: usize,
    thread: u64,
    poll: &mut StopPoll<S>,
    result: Result<ScanOutcome, QueryError>,
)
    requires
        call_ensures(scan_squared_l2::<S>, (rescored, dimension, k, thread, poll), result),
        result is Ok,
    ensures
        ({
            let rows = rescored->Ok_0;
            let hits = rows.hits@;
            let found = result->Ok_0.candidates@;
            &&& rescored is Ok
            &&& hits.len() <= k ==> found.len() == hits.len()
            &&& hits.len() > k ==> found.len() >= k
            &&& forall|i: int|
                0 <= i < found.len() ==> exists|h: int|
                    0 <= h < hits.len() && (#[trigger] hits[h]).row_index == (
                    #[trigger] found[i]).row_id && hits[h].score == found[i].score
            &&& forall|i: int, j: int|
                0 <= i < j < found.len() ==> !scanned_nearer(
                    #[trigger] found[j],
                    #[trigger] found[i],
                )
            &&& result->Ok_0.stats.dims_touched == rows.candidates_rescored * dimension
        }),
{
    let hits = rescored->Ok_0.hits@;
    let rows = rescored_candidates(hits);
    let found = result->Ok_0.candidates@;
    lemma_rescored_rows_keep_their_scores(hits);
    lemma_a_scan_keeps_the_nearest_rows(rows, k as nat);
    assert(found == best_with_ties(ranked(rows), k as nat));
    assert forall|i: int| 0 <= i < found.len() implies exists|h: int|
        0 <= h < hits.len() && (#[trigger] hits[h]).row_index == (#[trigger] found[i]).row_id
            && hits[h].score == found[i].score by {
        assert(rows.contains(found[i]));
        let h = choose|h: int| 0 <= h < rows.len() && rows[h] == found[i];
        assert(hits[h].row_index == rows[h].row_id);
    }
}

/// A rescoring that ends well ranks each row by its own exact score: every row that is
/// returned has the score that was computed for it, or its coarse one where none was.
pub proof fn lemma_a_rescoring_ranks_by_the_exact_scores<S: StopSource>(
    candidates: &mut Vec<ScanCandidate>,
    stats: &mut ScanStats,
    scored: Result<Vec<ExactScore>, RescoreCheckError>,
    dimension: usize,
    k: usize,
    eligible: u64,
    caller: u64,
    room: Result<(), StoreError>,
    poll: &mut StopPoll<S>,
    result: Result<Rescored, QueryError>,
)
    requires
        call_ensures(
            rescore::<S>,
            (candidates, stats, scored, dimension, k, eligible, caller, room, poll),
            result,
        ),
        result is Ok,
    ensures
        ({
            let rows = old(candidates)@;
            let found = final(candidates)@;
            let scores = scored->Ok_0@;
            &&& scored is Ok
            &&& scores.len() <= rows.len()
            &&& rows.len() <= k ==> found.len() == rows.len()
            &&& rows.len() > k ==> found.len() >= k
            &&& forall|i: int, j: int|
                0 <= i < j < found.len() ==> !scanned_nearer(
                    #[trigger] found[j],
                    #[trigger] found[i],
                )
            &&& forall|i: int|
                0 <= i < found.len() ==> exists|r: int|
                    0 <= r < rows.len() && (#[trigger] rows[r]).row_id == (
                    #[trigger] found[i]).row_id && found[i].score == if r < scores.len() {
                        scores[r].narrowed
                    } else {
                        rows[r].score
                    }
            &&& result->Ok_0.counters.candidates_rescored == scores.len()
            &&& result->Ok_0.exhaustive <==> scores.len() == eligible
        }),
{
    let rows = old(candidates)@;
    let scores = scored->Ok_0@;
    let taken = rescored(rows, scores);
    let found = final(candidates)@;
    assert(rows.len() == old(candidates).len());
    lemma_a_scan_keeps_the_nearest_rows(taken, k as nat);
    lemma_the_widest_is_the_best(taken, scores, scores.len());
    assert(found == best_with_ties(ranked(taken), k as nat));
    assert forall|i: int| 0 <= i < found.len() implies exists|r: int|
        0 <= r < rows.len() && (#[trigger] rows[r]).row_id == (#[trigger] found[i]).row_id
            && found[i].score == if r < scores.len() {
            scores[r].narrowed
        } else {
            rows[r].score
        } by {
        assert(taken.contains(found[i]));
        let r = choose|r: int| 0 <= r < taken.len() && taken[r] == found[i];
        assert(rows[r].row_id == taken[r].row_id);
        if r < scores.len() {
            assert(scores[r].narrowed.spec_is_finite());
        }
    }
}

} // verus!
