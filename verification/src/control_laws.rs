//! When a query stops, what it then reports, and how its legs and workers answer.

use crate::accounting::Accounting;
use crate::candidates::ScanOutcome;
use crate::clock::ClockDomain;
use crate::control::CancelToken;
use crate::control::Deadline;
use crate::control::DeadlineError;
use crate::control::LockAttempt;
use crate::control::LockStep;
use crate::control::QueryCancellation;
use crate::control::QueryControl;
use crate::control::StopFlags;
use crate::control::StopState;
use crate::cross_score::CrossScoreCache;
use crate::cross_score::CrossScoreKey;
use crate::cross_score::CrossScorePolicy;
use crate::error::IoError;
use crate::error::QueryError;
use crate::error::ScanError;
use crate::error::StoreError;
use crate::error::StoreLockError;
use crate::fusion::report_failure;
use crate::fusion::resolve_hybrid_leg_results;
use crate::fusion::FusionError;
use crate::fusion::FusionLeg;
use crate::hybrid_search::vector_leg_result;
use crate::hybrid_search::StoreHybridSearchOutcome;
use crate::identity::PhysicalIdentity;
use crate::lexical::LexicalExpansion;
use crate::lexical::LexicalMatchKind;
use crate::lexical::StoreLexicalError;
use crate::lexical_laws::sum_of;
use crate::lexical_search::StoreLexicalSearchOutcome;
use crate::lock::HeldStores;
use crate::lock::StoreKey;
use crate::lock::StoreLock;
use crate::materialize::QueryMaterializer;
use crate::plan::PlanChoice;
use crate::pool::execute_store_scan;
use crate::pool::finish_exact;
use crate::pool::lexical_reply;
use crate::pool::plan_exact;
use crate::pool::plan_scan;
use crate::pool::reserve_exact_lane;
use crate::pool::stop_and_join;
use crate::pool::wait_step;
use crate::pool::Completion;
use crate::pool::ExactResult;
use crate::pool::ExactSlot;
use crate::pool::LexicalReply;
use crate::pool::PartitionScan;
use crate::pool::RowRange;
use crate::pool::ScanGeometry;
use crate::pool::WaitStep;
use crate::prepared_lexical::PinnedLexicalQuery;
use crate::prepared_lexical::PreparedLexicalQuery;
use crate::scan_laws::a_slot_found;
use crate::scan_laws::lemma_an_exact_scan_keeps_the_nearest;
use crate::scan_laws::parts_rows;
use crate::scan_laws::ranges_of;
use crate::scan_laws::rows_of_slot;
use crate::scan_laws::slot_counts;
use crate::search::GraphHit;
use crate::search::SegmentGraphResult;
use crate::store::Store;
use crate::traversal::pruned_result;
use crate::traversal::GraphFacts;
use crate::traversal::GraphTraversal;
use crate::traversal::PreparationFacts;
use crate::vector_laws::scanned_nearer;
use vstd::prelude::*;

verus! {

/// A flag is settled once: an active one takes the state, a settled one keeps its own,
/// and no other flag changes.
pub proof fn lemma_a_flag_is_settled_once(
    flags: &mut StopFlags,
    flag: usize,
    to: StopState,
    i: int,
)
    requires
        call_ensures(StopFlags::settle, (flags, flag, to), ()),
        0 <= i < old(flags)@.len(),
    ensures
        final(flags)@.len() == old(flags)@.len(),
        i == flag && old(flags)@[i] == StopState::Active ==> final(flags)@[i] == to,
        i != flag || old(flags)@[i] != StopState::Active ==> final(flags)@[i] == old(flags)@[i],
{
}

/// A cancelled token is cancelled for everybody who looks.
pub proof fn lemma_a_cancelled_token_is_seen(
    token: &CancelToken,
    flags: &mut StopFlags,
    later: &StopFlags,
    seen: bool,
)
    requires
        call_ensures(CancelToken::cancel, (token, flags), ()),
        token.flag < old(flags)@.len(),
        old(flags)@[token.flag as int] != StopState::TimedOut,
        later@ == final(flags)@,
        call_ensures(CancelToken::is_cancelled, (token, later), seen),
    ensures
        seen,
        forall|i: int|
            0 <= i < old(flags)@.len() && i != token.flag ==> #[trigger] final(flags)@[i] == old(
                flags)@[i],
{
}

/// A deadline lies its duration from now, on its own clock, with a flag of its own.
pub proof fn lemma_a_deadline_lies_its_duration_ahead(
    duration: u128,
    clock: ClockDomain,
    now: u128,
    flags: &mut StopFlags,
    result: Result<Deadline, DeadlineError>,
)
    requires
        call_ensures(Deadline::after_instant, (duration, clock, now, flags), result),
        old(flags)@.len() < usize::MAX,
    ensures
        result matches Ok(deadline) ==> {
            &&& deadline.at == now + duration
            &&& deadline.clock == clock
            &&& deadline.flag == old(flags)@.len()
            &&& final(flags)@ == old(flags)@.push(StopState::Active)
        },
        result is Err ==> now + duration > crate::clock::LATEST_INSTANT && final(flags)@ == old(
            flags)@,
{
}

/// A checkpoint stops a query exactly where its deadline has passed or its token was
/// cancelled, and names which.
pub proof fn lemma_a_checkpoint_stops_what_has_ended(
    control: &QueryControl,
    flags: &mut StopFlags,
    now: u128,
    result: Result<(), QueryError>,
)
    requires
        call_ensures(QueryControl::checkpoint_at, (control, flags, now), result),
    ensures
        *control matches QueryControl::Deadline(deadline) ==> {
            let ended = now >= deadline.at || old(flags)@[deadline.flag as int]
                == StopState::TimedOut;
            &&& result is Err <==> ended
            &&& result matches Err(error) ==> error matches QueryError::Timeout { .. }
        },
        *control matches QueryControl::Cancel(token) ==> {
            let ended = old(flags)@[token.flag as int] == StopState::Cancelled;
            &&& result is Err <==> ended
            &&& result matches Err(error) ==> error matches QueryError::Cancelled { .. }
        },
{
}

/// What a check of a query finds: the end of its lease before its own stop, and nothing
/// where neither has come.
pub proof fn lemma_a_check_finds_the_lease_first(
    cancellation: &QueryCancellation,
    flags: &StopFlags,
    result: Result<(), ScanError>,
)
    requires
        call_ensures(QueryCancellation::check, (cancellation, flags), result),
        cancellation.lease_flag < flags@.len(),
    ensures
        ({
            let own = match cancellation.control {
                QueryControl::Deadline(deadline) => deadline.flag,
                QueryControl::Cancel(token) => token.flag,
            };
            let ended = flags@[cancellation.lease_flag as int] == StopState::Cancelled;
            &&& ended <==> (result matches Err(ScanError::ReadCancelled { .. }))
            &&& own < flags@.len() && !ended ==> {
                &&& flags@[own as int] == StopState::Active <==> result is Ok
                &&& flags@[own as int] == StopState::Cancelled <==> (result matches Err(
                    ScanError::Cancelled { .. },
                ))
                &&& flags@[own as int] == StopState::TimedOut <==> (result matches Err(
                    ScanError::Timeout { .. },
                ))
            }
        }),
{
}

/// A cache lock that was taken is kept only by a query that has not stopped.
pub proof fn lemma_a_stopped_query_keeps_no_lock(
    cancellation: &QueryCancellation,
    flags: &mut StopFlags,
    later: &StopFlags,
    now: u128,
    attempt: LockAttempt,
    component: &'static str,
    result: Result<LockStep, QueryError>,
    checked: Result<(), ScanError>,
)
    requires
        call_ensures(
            QueryCancellation::cache_lock_step,
            (cancellation, flags, now, attempt, component),
            result,
        ),
        later@ == final(flags)@,
        call_ensures(QueryCancellation::check, (cancellation, later), checked),
    ensures
        result == Ok::<LockStep, QueryError>(LockStep::Keep) <==> attempt == LockAttempt::Acquired
            && checked is Ok,
        attempt == LockAttempt::Poisoned ==> result is Err,
{
}

/// How urgent a failure is: the end of the lease, then a passed deadline, then a
/// cancellation, then everything else.
pub open spec fn urgency(error: FusionError) -> int {
    match error {
        FusionError::ReadCancelled { .. } => 3,
        FusionError::Timeout { .. } => 2,
        FusionError::Cancelled { .. } => 1,
        _ => 0,
    }
}

/// Of two failures the more urgent is reported, and the vector leg's where they are
/// alike.
pub proof fn lemma_the_more_urgent_failure_is_reported(
    vector: FusionError,
    lexical: FusionError,
    error: FusionError,
)
    requires
        call_ensures(report_failure, (vector, lexical), error),
    ensures
        urgency(vector) >= urgency(lexical) ==> error == vector,
        urgency(vector) < urgency(lexical) ==> error == lexical,
{
}

/// Two legs answer together: with both values where both have one, and otherwise with
/// the more urgent failure.
pub proof fn lemma_two_legs_answer_together<V, L>(
    vector: Result<V, FusionError>,
    lexical: Result<L, FusionError>,
    result: Result<(V, L), FusionError>,
)
    requires
        call_ensures(resolve_hybrid_leg_results::<V, L>, (vector, lexical), result),
    ensures
        result is Ok <==> vector is Ok && lexical is Ok,
        result matches Ok(pair) ==> vector == Ok::<V, FusionError>(pair.0) && lexical == Ok::<
            L,
            FusionError,
        >(pair.1),
        result matches Err(error) ==> {
            &&& vector is Ok ==> lexical == Err::<L, FusionError>(error)
            &&& lexical is Ok ==> vector == Err::<V, FusionError>(error)
            &&& vector is Err && lexical is Err ==> error == if urgency(vector->Err_0) >= urgency(
                lexical->Err_0,
            ) {
                vector->Err_0
            } else {
                lexical->Err_0
            }
        },
{
}

/// A stop keeps its kind on its way out of a leg.
pub proof fn lemma_a_stop_keeps_its_kind(
    error: QueryError,
    leg: FusionLeg,
    inner: &str,
    result: FusionError,
)
    requires
        call_ensures(FusionError::from_query, (error, leg, inner), result),
    ensures
        (error matches QueryError::Timeout { .. }) || (error matches QueryError::Scan(
            ScanError::Timeout { .. },
        )) <==> urgency(result) == 2,
        (error matches QueryError::Cancelled { .. }) || (error matches QueryError::Scan(
            ScanError::Cancelled { .. },
        )) <==> urgency(result) == 1,
        (error matches QueryError::ReadCancelled { .. }) || (error matches QueryError::Scan(
            ScanError::ReadCancelled { .. },
        )) <==> urgency(result) == 3,
        urgency(result) == 0 ==> (result matches FusionError::Leg { leg: at, .. } && at == leg),
{
}

/// The vector leg answers with its own value, and a leg that broke down is reported.
pub proof fn lemma_a_vector_leg_answers_with_its_value<R>(
    ran: Option<Result<R, QueryError>>,
    inner: &str,
    result: Result<R, FusionError>,
)
    requires
        call_ensures(vector_leg_result::<R>, (ran, inner), result),
    ensures
        result matches Ok(value) ==> ran == Some(Ok::<R, QueryError>(value)),
        ran matches Some(Ok(_)) ==> result is Ok,
        ran is None ==> (result matches Err(FusionError::LegPanic { leg, .. }) && leg
            == FusionLeg::Vector),
{
}

/// The lexical worker answers with its own value, and everything else is a failure of
/// the lexical leg.
pub proof fn lemma_a_lexical_worker_answers_with_its_value<R>(
    reply: LexicalReply<R>,
    result: Result<R, FusionError>,
)
    requires
        call_ensures(lexical_reply::<R>, (reply,), result),
    ensures
        result matches Ok(value) ==> reply == LexicalReply::<R>::Completed(value),
        reply is Completed ==> result is Ok,
        reply is Panicked ==> (result matches Err(FusionError::LegPanic { leg, .. }) && leg
            == FusionLeg::Lexical),
        reply is Faulted ==> (result matches Err(FusionError::LegThreadStart { leg, .. }) && leg
            == FusionLeg::Lexical),
{
}

/// A slot takes its first result, and each slot is counted down once.
pub proof fn lemma_a_slot_takes_its_first_result<R>(
    completion: &mut Completion<R>,
    slot: usize,
    result: R,
    i: int,
)
    requires
        call_ensures(Completion::<R>::complete, (completion, slot, result), ()),
        0 <= i < old(completion).results@.len(),
        slot < old(completion).results@.len(),
        old(completion).remaining > 0,
    ensures
        final(completion).results@.len() == old(completion).results@.len(),
        i == slot && old(completion).results@[i] is None ==> final(completion).results@[i] == Some(
            result,
        ),
        i != slot || old(completion).results@[i] is Some ==> final(completion).results@[i] == old(
            completion).results@[i],
        old(completion).results@[slot as int] is None ==> final(completion).remaining == old(
            completion).remaining - 1,
        old(completion).results@[slot as int] is Some ==> final(completion).remaining == old(
            completion).remaining,
{
}

/// A caller waits exactly while results remain, and with a deadline that has not passed
/// no longer than up to it.
pub proof fn lemma_a_caller_waits_for_what_remains(
    control: &QueryControl,
    flags: &mut StopFlags,
    now: u128,
    remaining: usize,
    step: WaitStep,
)
    requires
        call_ensures(wait_step, (control, flags, now, remaining), step),
    ensures
        step == WaitStep::Ready <==> remaining == 0,
        step matches WaitStep::WaitUpTo(left) ==> (*control matches QueryControl::Deadline(deadline)
            && (now < deadline.at ==> now + left == deadline.at) && (now >= deadline.at ==> left
            == 0)),
{
}

/// A parted scan hands its workers ranges that part its rows, unless the pool has
/// stopped.
pub proof fn lemma_a_planned_scan_parts_its_rows(
    worker_count: usize,
    running: bool,
    geometry: Result<ScanGeometry, ScanError>,
    thread_budget: usize,
    result: Result<Vec<RowRange>, QueryError>,
)
    requires
        call_ensures(plan_scan, (worker_count, running, geometry, thread_budget), result),
        worker_count > 0,
    ensures
        result matches Ok(ranges) ==> {
            &&& running
            &&& geometry matches Ok(shape)
            &&& parts_rows(ranges@, shape.row_count as int)
            &&& ranges@.len() <= worker_count
            &&& thread_budget > 0 ==> ranges@.len() <= thread_budget
        },
        geometry matches Err(error) ==> result == Err::<Vec<RowRange>, QueryError>(
            QueryError::Scan(error),
        ),
{
    if let Ok(ranges) = result {
        crate::scan_laws::lemma_ranges_part_the_rows(
            ranges@,
            geometry->Ok_0.row_count as nat,
        );
    }
}

/// An exact scan hands out slots that part its rows, to workers that there are.
pub proof fn lemma_a_planned_exact_scan_parts_its_rows(
    worker_count: usize,
    running: bool,
    rows: usize,
    dimension: usize,
    requested: usize,
    lane: usize,
    reserved: Result<(), StoreError>,
    result: Result<Vec<ExactSlot>, QueryError>,
)
    requires
        call_ensures(
            plan_exact,
            (worker_count, running, rows, dimension, requested, lane, reserved),
            result,
        ),
    ensures
        result matches Ok(slots) ==> {
            &&& running && worker_count > 0 && reserved is Ok
            &&& parts_rows(ranges_of(slots@), rows as int)
            &&& slots@.len() <= 4 && slots@.len() <= worker_count
            &&& forall|s: int|
                0 <= s < slots@.len() ==> (#[trigger] slots@[s]).worker < worker_count
        },
        reserved matches Err(error) ==> result == Err::<Vec<ExactSlot>, QueryError>(
            QueryError::Store(error),
        ),
{
    if let Ok(slots) = result {
        let n = slots@.len();
        assert forall|w: int| 0 <= w < n implies (ranges_of(slots@)[w]).start
            == crate::pool::part_start(rows as nat, n, w as nat) && ranges_of(slots@)[w].end
            == crate::pool::part_start(rows as nat, n, (w + 1) as nat) by {
            assert(slots@[w].rows.start == crate::pool::part_start(rows as nat, n, w as nat));
        }
        crate::scan_laws::lemma_ranges_part_the_rows(ranges_of(slots@), rows as nat);
        let capacity = crate::pool::exact_capacity_spec(worker_count as nat) as int;
        assert forall|s: int| 0 <= s < n implies (#[trigger] slots@[s]).worker < worker_count by {
            vstd::arithmetic::div_mod::lemma_mod_bound(lane as int % capacity + s, capacity);
        }
    }
}

/// Each query gets a lane behind those of the queries before it.
pub proof fn lemma_lanes_follow_each_other(
    next: &mut u64,
    worker_count: usize,
    requested: usize,
    lane: u64,
)
    requires
        call_ensures(reserve_exact_lane, (next, worker_count, requested), lane),
        *old(next) + 4 <= u64::MAX,
    ensures
        lane == *old(next),
        *old(next) < *final(next) <= *old(next) + 4,
        worker_count > 0 ==> *final(next) <= *old(next) + worker_count,
        requested > 0 ==> *final(next) <= *old(next) + requested,
        worker_count >= 4 && (requested == 0 || requested >= 4) ==> *final(next) == *old(next) + 4,
{
    let taken = crate::pool::lanes_taken(worker_count as nat, requested as nat);
    vstd::arithmetic::div_mod::lemma_small_mod(
        (*old(next) + taken) as nat,
        (u64::MAX + 1) as nat,
    );
}

/// A finished exact scan is stopped before it is merged, fails where its results cannot
/// be had, and otherwise keeps the nearest of what its slots found.
pub proof fn lemma_a_finished_exact_scan_keeps_the_nearest(
    cancellation: &QueryCancellation,
    flags: &StopFlags,
    poisoned: bool,
    slots: Vec<ExactResult>,
    k: usize,
    room: Result<(), StoreError>,
    result: Result<ScanOutcome, QueryError>,
    merged: Result<ScanOutcome, QueryError>,
)
    requires
        call_ensures(finish_exact, (cancellation, flags, poisoned, slots, k, room), result),
        call_ensures(crate::pool::merge_exact, (slots, k, room), merged),
        cancellation.lease_flag < flags@.len(),
    ensures
        poisoned ==> result is Err,
        flags@[cancellation.lease_flag as int] == StopState::Cancelled ==> (result matches Err(
            QueryError::ReadCancelled { .. },
        )),
        result is Ok ==> merged is Ok && result->Ok_0.candidates@ == merged->Ok_0.candidates@
            && result->Ok_0.worst_score == merged->Ok_0.worst_score,
        result is Ok ==> {
            let found = result->Ok_0.candidates@;
            let offered = sum_of(slot_counts(slots@));
            &&& offered <= k ==> found.len() == offered
            &&& offered > k ==> found.len() >= k
            &&& forall|i: int| 0 <= i < found.len() ==> a_slot_found(slots@, #[trigger] found[i])
            &&& forall|i: int, j: int|
                0 <= i < j < found.len() ==> !scanned_nearer(
                    #[trigger] found[j],
                    #[trigger] found[i],
                )
            &&& forall|s: int, i: int|
                0 < k <= offered && 0 <= s < slots@.len() && 0 <= i < rows_of_slot(
                    slots@[s],
                ).len() ==> (found.contains(#[trigger] rows_of_slot(slots@[s])[i])
                    <==> rows_of_slot(slots@[s])[i].score.order() >= found[k - 1].score.order())
        },
{
    if result is Ok {
        lemma_an_exact_scan_keeps_the_nearest(slots, k, room, merged);
    }
}

/// A scan without a fault is what the pool answered; one with a fault is the one part
/// that was scanned, as it is.
pub proof fn lemma_a_store_scan_is_what_was_scanned(
    geometry: Result<ScanGeometry, ScanError>,
    faulted: Option<Result<PartitionScan, ScanError>>,
    pooled: Result<ScanOutcome, QueryError>,
    result: Result<ScanOutcome, QueryError>,
)
    requires
        call_ensures(execute_store_scan, (geometry, faulted, pooled), result),
    ensures
        faulted is None ==> result == pooled,
        faulted is Some ==> (result is Ok <==> geometry is Ok && faulted->0 is Ok),
        faulted is Some && result is Ok ==> {
            let (part, outcome) = (faulted->0->Ok_0, result->Ok_0);
            &&& outcome.candidates@ == part.candidates@
            &&& outcome.stats.dims_touched == part.dims_touched
            &&& outcome.stats.bytes_read == part.bytes_read
            &&& outcome.stats.worker_thread_ids@.len() == 1
            &&& outcome.stats.worker_thread_ids@[0] == part.worker_thread_id
        },
{
}

/// A pool that stops reports a worker that broke down, wherever it stands.
pub proof fn lemma_a_broken_worker_is_reported(
    panicked: &Vec<bool>,
    result: Result<(), StoreError>,
    at: int,
)
    requires
        call_ensures(stop_and_join, (panicked,), result),
        0 <= at < panicked@.len(),
    ensures
        panicked@[at] ==> result is Err,
        !panicked@.contains(true) ==> result is Ok,
{
    assert(panicked@[at] ==> panicked@.contains(true));
}

/// A store has one owner: a second registration is refused while the first holds, and
/// taken once it was released.
pub proof fn lemma_a_store_has_one_owner(
    held: &mut HeldStores,
    later: &mut HeldStores,
    directory: &str,
    other: &str,
    key: StoreKey,
    first: Result<StoreKey, StoreLockError>,
    second: Result<StoreKey, StoreLockError>,
)
    requires
        call_ensures(HeldStores::register, (held, directory, Ok::<StoreKey, IoError>(key)), first),
        later.keys@ == final(held).keys@,
        call_ensures(HeldStores::register, (later, other, Ok::<StoreKey, IoError>(key)), second),
    ensures
        first is Ok <==> !old(held).keys@.contains(key),
        first matches Ok(taken) ==> taken == key,
        second is Err,
        final(held).keys@.contains(key),
        forall|x: StoreKey|
            x != key ==> (#[trigger] final(held).keys@.contains(x) <==> old(held).keys@.contains(
                x,
            )),
{
    let (before, after) = (old(held).keys@, final(held).keys@);
    if first is Ok {
        assert(after == before.push(key));
        assert(after[before.len() as int] == key);
        assert forall|x: StoreKey| x != key implies (#[trigger] after.contains(x)
            <==> before.contains(x)) by {
            if before.contains(x) {
                let i = choose|i: int| 0 <= i < before.len() && before[i] == x;
                assert(after[i] == x);
            }
            if after.contains(x) {
                let i = choose|i: int| 0 <= i < after.len() && after[i] == x;
                assert(before[i] == x);
            }
        }
    }
}

/// Releasing a store gives up its key and no other.
pub proof fn lemma_a_released_store_is_free(held: &mut HeldStores, lock: StoreLock)
    requires
        call_ensures(HeldStores::release, (held, lock), ()),
    ensures
        !final(held).keys@.contains(lock.key),
        forall|x: StoreKey|
            x != lock.key ==> (#[trigger] final(held).keys@.contains(x) <==> old(
                held).keys@.contains(x)),
{
}

/// A crossed score is kept under its identity, its policy and the epoch of the cache.
pub proof fn lemma_a_key_is_that_of_its_identity(
    cache: &CrossScoreCache,
    identity: PhysicalIdentity,
    policy: CrossScorePolicy,
    key: CrossScoreKey,
    other_identity: PhysicalIdentity,
    other_policy: CrossScorePolicy,
    other: CrossScoreKey,
)
    requires
        call_ensures(CrossScoreCache::key, (cache, identity, policy), key),
        call_ensures(CrossScoreCache::key, (cache, other_identity, other_policy), other),
    ensures
        key == other <==> identity == other_identity && policy == other_policy,
        key.identity == identity && key.policy == policy && key.epoch == cache.epoch,
{
}

/// A round starts with the scores of the rounds before it, and with none where it is to
/// start afresh.
pub proof fn lemma_a_round_starts_with_the_earlier_scores(
    cache: &mut CrossScoreCache,
    fresh: bool,
    accounting: &mut Accounting,
)
    requires
        call_ensures(CrossScoreCache::start_round, (cache, fresh, accounting), ()),
    ensures
        !fresh ==> final(cache).entries.items@ == old(cache).entries.items@ && final(cache).sorted
            == old(cache).sorted,
        fresh ==> final(cache).entries.items@.len() == 0 && final(cache).sorted == 0,
        final(cache).epoch == old(cache).epoch,
{
}

/// A traversal that ends reports its hits as they are, its own source, its width and the
/// work of all its rounds.
pub proof fn lemma_a_finished_traversal_reports_its_hits(
    traversal: &GraphTraversal,
    facts: &GraphFacts,
    prepared: &PreparationFacts,
    hits: Vec<GraphHit>,
    effective_ef: usize,
    thread: u64,
    result: SegmentGraphResult,
)
    requires
        call_ensures(
            GraphTraversal::finish,
            (traversal, facts, prepared, hits, effective_ef, thread),
            result,
        ),
    ensures
        result matches SegmentGraphResult::Traversed {
            hits: found,
            plan,
            dims_touched,
            bytes_read,
            caller_thread,
            graph_stats,
        } && {
            &&& found@ == hits@
            &&& plan.source == facts.source && plan.live_rows == facts.live_count
            &&& plan.choice == (PlanChoice::Graph {
                requested_ef: traversal.options.ef,
                effective_ef,
                profile: traversal.options.profile,
            })
            &&& dims_touched == traversal.work.dims_touched
            &&& bytes_read == traversal.work.bytes_read
            &&& caller_thread == thread
            &&& graph_stats.segments_traversed == 1
            &&& graph_stats.segments_pruned_by_bound == 0
            &&& graph_stats.candidates_scored == traversal.work.candidates_scored
            &&& graph_stats.candidates_rescored == traversal.work.candidates_rescored
        },
{
}

/// A segment that is ruled out is reported as such, for its own source, with no row and
/// no traversal.
pub proof fn lemma_a_ruled_out_segment_is_reported(
    facts: &GraphFacts,
    prepared: &PreparationFacts,
    result: SegmentGraphResult,
)
    requires
        call_ensures(pruned_result, (facts, prepared), result),
    ensures
        result matches SegmentGraphResult::Pruned { plan, graph_stats } && {
            &&& plan.source == facts.source && plan.live_rows == facts.live_count
            &&& plan.choice == PlanChoice::Pruned
            &&& graph_stats.segments_pruned_by_bound == 1
            &&& graph_stats.segments_traversed == 0
            &&& graph_stats.candidates_scored == 0
        },
{
}

/// The expansions of a query are handed out as they were prepared: the terms of a plain
/// query, and what a structured query was expanded to.
pub proof fn lemma_a_query_hands_out_its_own_expansions(
    query: &mut PreparedLexicalQuery,
    result: Result<Vec<LexicalExpansion>, FusionError>,
)
    requires
        call_ensures(PreparedLexicalQuery::take_expansions, (query,), result),
    ensures
        old(query).query matches PinnedLexicalQuery::Term { terms, .. } ==> (result matches Ok(
            expansions,
        ) && expansions@.len() == terms@.len() && forall|i: int|
            0 <= i < terms@.len() ==> (#[trigger] expansions@[i]).term@ == terms@[i]@
                && expansions@[i].boost_thousandths == 1000 && expansions@[i].kind
                == LexicalMatchKind::Term),
        old(query).query is Structured ==> {
            &&& result is Ok <==> old(query).structured is Some
            &&& result matches Ok(expansions) ==> expansions@ == old(
                query).structured->0.expansions@
        },
        final(query).query == old(query).query,
{
}

/// Behind the texts of a lexical answer its documents and scores are the same.
pub proof fn lemma_texts_leave_the_lexical_answer_as_it_is(
    outcome: StoreLexicalSearchOutcome,
    materializer: &QueryMaterializer,
    flags: &mut StopFlags,
    now: u128,
    result: Result<StoreLexicalSearchOutcome, StoreLexicalError>,
)
    requires
        call_ensures(Store::search_lexical_with_text, (outcome, materializer, flags, now), result),
    ensures
        result matches Ok(answer) ==> {
            &&& answer == (StoreLexicalSearchOutcome { diagnostics: answer.diagnostics, ..outcome })
            &&& answer.diagnostics.materialization == Some(materializer.counts)
        },
{
}

/// Behind the texts of a hybrid answer its hits are the same.
pub proof fn lemma_texts_leave_the_hybrid_answer_as_it_is(
    outcome: StoreHybridSearchOutcome,
    materializer: &QueryMaterializer,
    flags: &mut StopFlags,
    now: u128,
    inner: &str,
    result: Result<StoreHybridSearchOutcome, FusionError>,
)
    requires
        call_ensures(
            Store::search_hybrid_with_text,
            (outcome, materializer, flags, now, inner),
            result,
        ),
    ensures
        result matches Ok(answer) ==> {
            &&& answer.hits@ == outcome.hits@
            &&& answer.lexical_expansions@ == outcome.lexical_expansions@
            &&& answer.generation == outcome.generation
            &&& answer.diagnostics.returned == outcome.diagnostics.returned
            &&& answer.diagnostics.materialization == Some(materializer.counts)
        },
{
}

} // verus!
