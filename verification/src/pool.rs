//! Parallel scans: how rows are parted among workers, how results are gathered
//! and how they become one outcome.

use crate::candidates::add_workers;
use crate::candidates::distinct_union;
use crate::candidates::ScanCandidate;
use crate::candidates::ScanOutcome;
use crate::candidates::ScanStats;
use crate::control::state_of;
use crate::control::QueryCancellation;
use crate::control::QueryControl;
use crate::control::StopFlags;
use crate::control::StopState;
use crate::error::overflow_error;
use crate::error::IoError;
use crate::error::QueryError;
use crate::error::ScanError;
use crate::error::StoreError;
use crate::fusion::FusionError;
use crate::fusion::FusionLeg;
use crate::rank::best_with_ties;
use crate::rank::lemma_ties_of_parts;
use crate::rank::lemma_ties_of_ties;
use crate::rank::rank_items;
use crate::rank::ranked;
use crate::rank::truncate_to_k_with_score_ties;
use crate::score::Double;
use crate::score::Score;
use crate::search::map_scan_error;
use crate::search::scan_failure;
use vstd::prelude::*;

verus! {

/// Most workers of one exact scan.
pub const EXACT_WORKERS: usize = 4;

/// Rows from which an exact scan is parted.
pub const EXACT_PARALLEL_ROWS: usize = 256;

/// Values from which an exact scan is parted.
pub const EXACT_PARALLEL_VALUES: usize = 262_144;

/// Rows that each worker of an exact scan has at least.
pub const EXACT_ROWS_PER_WORKER: usize = 64;

/// The smaller of two numbers.
pub open spec fn least(left: nat, right: nat) -> nat {
    if left <= right {
        left
    } else {
        right
    }
}

fn least_of(left: usize, right: usize) -> (result: usize)
    ensures
        result == least(left as nat, right as nat),
{
    if left <= right {
        left
    } else {
        right
    }
}

/// Workers that a pool lends to one exact scan at most.
pub open spec fn exact_capacity_spec(worker_count: nat) -> nat {
    least(worker_count, EXACT_WORKERS as nat)
}

/// Workers that a pool lends to one exact scan at most.
pub fn exact_capacity(worker_count: usize) -> (capacity: usize)
    ensures
        capacity == exact_capacity_spec(worker_count as nat),
{
    least_of(worker_count, EXACT_WORKERS)
}

/// Workers of one exact scan: a small scan runs on one; a larger one on what was
/// requested, as far as the pool lends them and each has enough rows.
pub open spec fn exact_workers_spec(
    worker_count: nat,
    rows: nat,
    dimension: nat,
    requested: nat,
) -> nat {
    if rows < EXACT_PARALLEL_ROWS || rows * dimension < EXACT_PARALLEL_VALUES {
        1
    } else {
        let wanted = if requested == 0 {
            EXACT_WORKERS as nat
        } else {
            requested
        };
        let lent = least(
            least(wanted, exact_capacity_spec(worker_count)),
            rows / EXACT_ROWS_PER_WORKER as nat,
        );
        if lent == 0 {
            1
        } else {
            lent
        }
    }
}

/// Workers of one exact scan.
pub fn exact_workers(worker_count: usize, rows: usize, dimension: usize, requested: usize) -> (workers:
    usize)
    ensures
        workers == exact_workers_spec(
            worker_count as nat,
            rows as nat,
            dimension as nat,
            requested as nat,
        ),
{
    assert(0 <= rows * dimension) by (nonlinear_arith);
    let values: usize = match rows.checked_mul(dimension) {
        Some(values) => values,
        None => usize::MAX,
    };
    if rows < EXACT_PARALLEL_ROWS || values < EXACT_PARALLEL_VALUES {
        return 1;
    }
    let wanted: usize = if requested == 0 {
        EXACT_WORKERS
    } else {
        requested
    };
    let lent: usize = least_of(
        least_of(wanted, exact_capacity(worker_count)),
        rows / EXACT_ROWS_PER_WORKER,
    );
    if lent == 0 {
        1
    } else {
        lent
    }
}

/// Lanes that a reservation takes.
pub open spec fn lanes_taken(worker_count: nat, requested: nat) -> nat {
    let wanted = if requested == 0 {
        EXACT_WORKERS as nat
    } else {
        requested
    };
    let lent = least(wanted, exact_capacity_spec(worker_count));
    if lent == 0 {
        1
    } else {
        lent
    }
}

/// Reserves lanes of the exact workers and returns the first. Lanes are counted
/// round and round, so that scans of several callers start at different workers.
pub fn reserve_exact_lane(next: &mut u64, worker_count: usize, requested: usize) -> (lane: u64)
    ensures
        lane == *old(next),
        *final(next) as int == (*old(next) + lanes_taken(worker_count as nat, requested as nat)) % (
        u64::MAX + 1),
{
    let wanted: usize = if requested == 0 {
        EXACT_WORKERS
    } else {
        requested
    };
    let lent: usize = least_of(wanted, exact_capacity(worker_count));
    let taken: usize = if lent == 0 {
        1
    } else {
        lent
    };
    let lane: u64 = *next;
    *next = lane.wrapping_add(taken as u64);
    lane
}

/// Workers of one scan.
pub open spec fn scan_workers_spec(worker_count: nat, thread_budget: nat, work_units: nat) -> nat {
    least(
        if thread_budget == 0 {
            worker_count
        } else {
            least(thread_budget, worker_count)
        },
        if work_units == 0 {
            1
        } else {
            work_units
        },
    )
}

/// Workers of one scan: the caller's budget within the pool, and no more than
/// there are units of work.
pub fn scan_workers(worker_count: usize, thread_budget: usize, work_units: usize) -> (workers: usize)
    ensures
        workers == scan_workers_spec(
            worker_count as nat,
            thread_budget as nat,
            work_units as nat,
        ),
{
    let requested: usize = if thread_budget == 0 {
        worker_count
    } else {
        least_of(thread_budget, worker_count)
    };
    let units: usize = if work_units == 0 {
        1
    } else {
        work_units
    };
    least_of(requested, units)
}

/// A range of rows.
#[derive(Clone, Copy, Debug, PartialEq, Eq, Structural)]
pub struct RowRange {
    pub start: usize,
    pub end: usize,
}

/// Where the part of one worker starts.
pub open spec fn part_start(row_count: nat, workers: nat, worker: nat) -> nat {
    (worker * row_count) / workers
}

/// Parts rows evenly among workers.
pub fn partition_row_count(row_count: usize, workers: usize) -> (result: Result<
    Vec<RowRange>,
    ScanError,
>)
    ensures
        match result {
            Ok(ranges) => {
                &&& workers * row_count <= usize::MAX
                &&& ranges@.len() == workers
                &&& forall|w: int|
                    0 <= w < workers ==> (#[trigger] ranges@[w]).start == part_start(
                        row_count as nat,
                        workers as nat,
                        w as nat,
                    ) && ranges@[w].end == part_start(
                        row_count as nat,
                        workers as nat,
                        (w + 1) as nat,
                    )
            },
            Err(error) => workers * row_count > usize::MAX && error
                == ScanError::ArithmeticOverflow,
        },
{
    let mut ranges: Vec<RowRange> = Vec::with_capacity(workers);
    let mut worker: usize = 0;
    assert(workers * row_count == row_count * workers) by (nonlinear_arith);
    if workers == 0 {
        assert(0 * row_count == 0) by (nonlinear_arith);
    }
    while worker < workers
        invariant
            worker <= workers,
            worker * row_count <= usize::MAX,
            ranges@.len() == worker,
            forall|w: int|
                0 <= w < worker ==> (#[trigger] ranges@[w]).start == part_start(
                    row_count as nat,
                    workers as nat,
                    w as nat,
                ) && ranges@[w].end == part_start(
                    row_count as nat,
                    workers as nat,
                    (w + 1) as nat,
                ),
        decreases workers - worker,
    {
        assert(0 <= worker * row_count <= workers * row_count && 0 <= (worker + 1) * row_count
            <= workers * row_count && worker * row_count <= (worker + 1) * row_count)
            by (nonlinear_arith)
            requires
                0 <= worker < workers,
                0 <= row_count,
        ;
        let low: usize = match worker.checked_mul(row_count) {
            Some(product) => product,
            None => {
                return Err(ScanError::ArithmeticOverflow);
            },
        };
        let high: usize = match (worker + 1).checked_mul(row_count) {
            Some(product) => product,
            None => {
                return Err(ScanError::ArithmeticOverflow);
            },
        };
        ranges.push(RowRange { start: low / workers, end: high / workers });
        worker = worker + 1;
    }
    Ok(ranges)
}

/// The parts of a scan meet end to start, begin at the first row and end at the
/// last, so that every row is scanned exactly once.
pub proof fn lemma_parts_cover_every_row(row_count: nat, workers: nat, worker: nat)
    requires
        0 < workers,
        worker < workers,
    ensures
        part_start(row_count, workers, 0) == 0,
        part_start(row_count, workers, workers) == row_count,
        part_start(row_count, workers, worker) <= part_start(row_count, workers, worker + 1),
{
    assert(0 * row_count == 0) by (nonlinear_arith);
    assert((workers * row_count) / workers == row_count) by (nonlinear_arith)
        requires
            workers > 0,
    ;
    assert(worker * row_count <= (worker + 1) * row_count) by (nonlinear_arith);
    vstd::arithmetic::div_mod::lemma_div_is_ordered(
        (worker * row_count) as int,
        ((worker + 1) * row_count) as int,
        workers as int,
    );
}

/// One slot of an exact scan: its worker and its rows.
#[derive(Clone, Copy, Debug, PartialEq, Eq, Structural)]
pub struct ExactSlot {
    pub worker: usize,
    pub rows: RowRange,
}

/// The slots of an exact scan: the parts in order, each with the worker that
/// comes next, round and round from a reserved lane on.
pub open spec fn assigns(
    slots: Seq<ExactSlot>,
    row_count: nat,
    workers: nat,
    available: nat,
    lane: nat,
) -> bool {
    &&& slots.len() == workers
    &&& forall|w: int|
        0 <= w < workers ==> (#[trigger] slots[w]).worker == (lane as int % available as int + w)
            % available as int && slots[w].rows.start == part_start(row_count, workers, w as nat)
            && slots[w].rows.end == part_start(row_count, workers, (w + 1) as nat)
}

/// Assigns the parts of an exact scan to workers, from a reserved lane on.
pub fn assign_exact(row_count: usize, workers: usize, available: usize, lane: usize) -> (result:
    Result<Vec<ExactSlot>, QueryError>)
    requires
        workers <= EXACT_WORKERS,
        available <= EXACT_WORKERS,
    ensures
        match result {
            Ok(slots) => available > 0 && workers * row_count <= usize::MAX && assigns(
                slots@,
                row_count as nat,
                workers as nat,
                available as nat,
                lane as nat,
            ),
            Err(error) => error == overflow_error() && (available == 0 || workers * row_count
                > usize::MAX),
        },
{
    if available == 0 {
        return Err(QueryError::Scan(ScanError::ArithmeticOverflow));
    }
    let offset: usize = lane % available;
    let ranges = match partition_row_count(row_count, workers) {
        Ok(ranges) => ranges,
        Err(error) => {
            return Err(QueryError::Scan(error));
        },
    };
    let mut slots: Vec<ExactSlot> = Vec::with_capacity(workers);
    let mut slot: usize = 0;
    while slot < workers
        invariant
            slot <= workers <= EXACT_WORKERS,
            0 < available <= EXACT_WORKERS,
            offset == lane as int % available as int,
            ranges@.len() == workers,
            forall|w: int|
                0 <= w < workers ==> (#[trigger] ranges@[w]).start == part_start(
                    row_count as nat,
                    workers as nat,
                    w as nat,
                ) && ranges@[w].end == part_start(
                    row_count as nat,
                    workers as nat,
                    (w + 1) as nat,
                ),
            slots@.len() == slot,
            forall|w: int|
                0 <= w < slot ==> (#[trigger] slots@[w]).worker == (lane as int % available as int
                    + w) % available as int && slots@[w].rows == ranges@[w],
        decreases workers - slot,
    {
        slots.push(ExactSlot { worker: (offset + slot) % available, rows: ranges[slot] });
        slot = slot + 1;
    }
    assert forall|w: int| 0 <= w < workers implies (#[trigger] slots@[w]).rows.start == part_start(
        row_count as nat,
        workers as nat,
        w as nat,
    ) && slots@[w].rows.end == part_start(row_count as nat, workers as nat, (w + 1) as nat) by {
        assert(slots@[w].rows == ranges@[w]);
    }
    Ok(slots)
}

/// Results of the slots of one scan.
#[derive(Debug)]
pub struct Completion<R> {
    pub remaining: usize,
    pub results: Vec<Option<R>>,
}

/// How many of the first `n` slots have no result.
pub open spec fn open_slots<R>(results: Seq<Option<R>>, n: nat) -> nat
    decreases n,
{
    if n == 0 {
        0
    } else {
        open_slots(results, (n - 1) as nat) + if results[n - 1] is None {
            1nat
        } else {
            0nat
        }
    }
}

impl<R> Completion<R> {
    /// Slots without results; `admitted` of them are waited for.
    pub fn new(slots: usize, admitted: usize) -> (completion: Completion<R>)
        ensures
            completion.remaining == admitted,
            completion.results@.len() == slots,
            forall|i: int| 0 <= i < slots ==> (#[trigger] completion.results@[i]) is None,
    {
        let mut results: Vec<Option<R>> = Vec::with_capacity(slots);
        let mut at: usize = 0;
        while at < slots
            invariant
                at <= slots,
                results@.len() == at,
                forall|i: int| 0 <= i < at ==> (#[trigger] results@[i]) is None,
            decreases slots - at,
        {
            results.push(None);
            at = at + 1;
        }
        Completion { remaining: admitted, results }
    }

    /// Waits for one more slot.
    pub fn admit_slot(&mut self)
        requires
            old(self).remaining < old(self).results@.len(),
        ensures
            final(self).remaining == old(self).remaining + 1,
            final(self).results@ == old(self).results@,
    {
        assert(self.remaining < self.results.len());
        self.remaining = self.remaining + 1;
    }

    /// Takes a slot's result. The first result of a slot stays, and a slot that
    /// there is not is passed over.
    pub fn complete(&mut self, slot: usize, result: R)
        ensures
            if slot < old(self).results@.len() && old(self).results@[slot as int] is None {
                &&& final(self).results@ == old(self).results@.update(slot as int, Some(result))
                &&& final(self).remaining == if old(self).remaining > 0 {
                    (old(self).remaining - 1) as usize
                } else {
                    0
                }
            } else {
                *final(self) == *old(self)
            },
    {
        if slot < self.results.len() && self.results[slot].is_none() {
            self.results.set(slot, Some(result));
            if self.remaining > 0 {
                self.remaining = self.remaining - 1;
            }
        }
    }
}

proof fn lemma_open_slots_update<R>(results: Seq<Option<R>>, slot: int, result: R, n: nat)
    requires
        0 <= slot < results.len(),
        n <= results.len(),
        results[slot] is None,
    ensures
        open_slots(results.update(slot, Some(result)), n) == open_slots(results, n) - if slot < n {
            1int
        } else {
            0int
        },
    decreases n,
{
    if n > 0 {
        lemma_open_slots_update(results, slot, result, (n - 1) as nat);
    }
}

/// While every slot is waited for, the count that remains is the number of slots
/// without a result: each slot is counted down exactly once, however often it
/// reports.
pub proof fn lemma_each_slot_counts_once<R>(before: Completion<R>, slot: int, result: R)
    requires
        before.remaining == open_slots(before.results@, before.results@.len()),
        0 <= slot < before.results@.len(),
        before.results@[slot] is None,
    ensures
        before.remaining > 0,
        before.remaining - 1 == open_slots(
            before.results@.update(slot, Some(result)),
            before.results@.len(),
        ),
{
    lemma_open_slots_update(before.results@, slot, result, before.results@.len());
}

/// What the caller of a parallel scan does next.
#[derive(Clone, Copy, Debug, PartialEq, Eq, Structural)]
pub enum WaitStep {
    /// Every slot that was waited for has a result.
    Ready,
    /// Wait for a result, this many nanoseconds at most.
    WaitUpTo(u128),
    /// Wait for a result.
    Wait,
}

/// Decides how the caller waits: it owns the deadline's timing, and once the
/// query is stopped it only waits for the workers to notice.
pub fn wait_step(control: &QueryControl, flags: &mut StopFlags, now: u128, remaining: usize) -> (step:
    WaitStep)
    requires
        control.on_board(old(flags)@),
    ensures
        control.on_board(final(flags)@),
        final(flags)@ == control.looked(old(flags)@, now),
        step == if remaining == 0 {
            WaitStep::Ready
        } else {
            match *control {
                QueryControl::Deadline(deadline) => if control.failure(final(flags)@) is None {
                    WaitStep::WaitUpTo(
                        if now < deadline.at {
                            (deadline.at - now) as u128
                        } else {
                            0
                        },
                    )
                } else {
                    WaitStep::Wait
                },
                QueryControl::Cancel(_) => WaitStep::Wait,
            }
        },
{
    control.look(flags, now);
    if remaining == 0 {
        return WaitStep::Ready;
    }
    match control.deadline() {
        Some(at) => {
            if control.error(flags).is_none() {
                if now < at {
                    WaitStep::WaitUpTo(at - now)
                } else {
                    WaitStep::WaitUpTo(0)
                }
            } else {
                WaitStep::Wait
            }
        },
        None => WaitStep::Wait,
    }
}

/// What stops a scan that has been gathered: store close, then its own control.
pub open spec fn stop_of(cancellation: QueryCancellation, flags: Seq<StopState>) -> Option<
    QueryError,
> {
    if state_of(flags, cancellation.lease_flag) == StopState::Cancelled {
        Some(QueryError::ReadCancelled { partial: false })
    } else {
        cancellation.control.failure(flags)
    }
}

/// What a gathered scan is told by the state of its query: store close comes
/// before the caller's own stop.
pub fn completion_stop(cancellation: &QueryCancellation, flags: &StopFlags) -> (result: Result<
    (),
    QueryError,
>)
    ensures
        result == match stop_of(*cancellation, flags@) {
            Some(error) => Err(error),
            None => Ok(()),
        },
{
    if flags.state(cancellation.lease_flag) == StopState::Cancelled {
        return Err(QueryError::ReadCancelled { partial: false });
    }
    match cancellation.control.error(flags) {
        Some(error) => Err(error),
        None => Ok(()),
    }
}

/// Result of one part of a scan.
#[derive(Debug)]
pub struct PartitionScan {
    pub candidates: Vec<ScanCandidate>,
    pub dims_touched: u64,
    pub bytes_read: u64,
    pub worker_thread_id: u64,
}

/// The failure of a slot, if it has no part.
pub open spec fn slot_failure(result: Option<Result<PartitionScan, ScanError>>) -> Option<
    QueryError,
> {
    match result {
        None => Some(
            QueryError::Store(StoreError::Synchronization { component: "query result slot" }),
        ),
        Some(Err(error)) => Some(QueryError::Scan(error)),
        Some(Ok(_)) => None,
    }
}

/// The first slot without a part is at `at`.
pub open spec fn first_failed_slot(
    results: Seq<Option<Result<PartitionScan, ScanError>>>,
    at: int,
) -> bool {
    &&& 0 <= at < results.len()
    &&& slot_failure(results[at]) is Some
    &&& forall|i: int| 0 <= i < at ==> slot_failure(#[trigger] results[i]) is None
}

/// Every slot holds its part.
pub open spec fn gathers(
    results: Seq<Option<Result<PartitionScan, ScanError>>>,
    parts: Seq<PartitionScan>,
) -> bool {
    &&& parts.len() == results.len()
    &&& forall|i: int|
        0 <= i < results.len() ==> results[i] == Some(
            Ok::<PartitionScan, ScanError>(#[trigger] parts[i]),
        )
}

/// Gathers the parts in slot order; the first slot without one decides the
/// failure, whichever failed first in time.
pub fn gather_partitions(results: Vec<Option<Result<PartitionScan, ScanError>>>) -> (result: Result<
    Vec<PartitionScan>,
    QueryError,
>)
    ensures
        match result {
            Ok(parts) => gathers(results@, parts@),
            Err(error) => exists|at: int|
                #[trigger] first_failed_slot(results@, at) && slot_failure(results@[at]) == Some(
                    error,
                ),
        },
{
    let ghost all = results@;
    let mut rest = results;
    let mut parts: Vec<PartitionScan> = Vec::with_capacity(rest.len());
    while rest.len() > 0
        invariant
            all == results@,
            parts@.len() + rest@.len() == all.len(),
            rest@ == all.skip(parts@.len() as int),
            forall|i: int|
                0 <= i < parts@.len() ==> all[i] == Some(
                    Ok::<PartitionScan, ScanError>(#[trigger] parts@[i]),
                ),
        decreases rest.len(),
    {
        let ghost at = parts@.len() as int;
        let head = rest.remove(0);
        assert(head == all[at]);
        assert forall|i: int| 0 <= i < at implies slot_failure(#[trigger] all[i]) is None by {
            assert(all[i] == Some(Ok::<PartitionScan, ScanError>(parts@[i])));
        }
        match head {
            None => {
                assert(first_failed_slot(all, at));
                return Err(
                    QueryError::Store(
                        StoreError::Synchronization { component: "query result slot" },
                    ),
                );
            },
            Some(Err(error)) => {
                assert(first_failed_slot(all, at));
                return Err(QueryError::Scan(error));
            },
            Some(Ok(part)) => {
                parts.push(part);
            },
        }
        assert(rest@ == all.skip(parts@.len() as int));
    }
    Ok(parts)
}

/// Candidates of the first `n` parts, in order.
pub open spec fn part_candidates(parts: Seq<PartitionScan>, n: nat) -> Seq<ScanCandidate>
    decreases n,
{
    if n == 0 {
        Seq::empty()
    } else {
        part_candidates(parts, (n - 1) as nat) + parts[n - 1].candidates@
    }
}

/// Values that the first `n` parts touched.
pub open spec fn part_dims(parts: Seq<PartitionScan>, n: nat) -> nat
    decreases n,
{
    if n == 0 {
        0
    } else {
        part_dims(parts, (n - 1) as nat) + parts[n - 1].dims_touched as nat
    }
}

/// Bytes that the first `n` parts read.
pub open spec fn part_bytes(parts: Seq<PartitionScan>, n: nat) -> nat
    decreases n,
{
    if n == 0 {
        0
    } else {
        part_bytes(parts, (n - 1) as nat) + parts[n - 1].bytes_read as nat
    }
}

/// Workers of the first `n` parts.
pub open spec fn part_workers(parts: Seq<PartitionScan>, n: nat) -> Seq<u64>
    decreases n,
{
    if n == 0 {
        Seq::empty()
    } else {
        distinct_union(
            part_workers(parts, (n - 1) as nat),
            seq![parts[n - 1].worker_thread_id],
        )
    }
}

proof fn lemma_parts_grow(parts: Seq<PartitionScan>, n: nat, end: nat)
    requires
        n <= end <= parts.len(),
    ensures
        part_dims(parts, n) <= part_dims(parts, end),
        part_bytes(parts, n) <= part_bytes(parts, end),
    decreases end - n,
{
    if n < end {
        lemma_parts_grow(parts, n, (end - 1) as nat);
    }
}

fn push_all(out: &mut Vec<ScanCandidate>, items: &Vec<ScanCandidate>)
    ensures
        final(out)@ == old(out)@ + items@,
{
    let mut at: usize = 0;
    while at < items.len()
        invariant
            at <= items@.len(),
            out@ == old(out)@ + items@.take(at as int),
        decreases items.len() - at,
    {
        out.push(items[at]);
        at = at + 1;
        assert(out@ == old(out)@ + items@.take(at as int));
    }
    assert(items@.take(at as int) == items@);
}

/// What merging the parts of a scan comes to.
pub open spec fn merges(
    parts: Seq<PartitionScan>,
    row_count: nat,
    workers: nat,
    k: nat,
    result: Result<ScanOutcome, QueryError>,
) -> bool {
    if part_dims(parts, parts.len()) > u64::MAX || part_bytes(parts, parts.len()) > u64::MAX {
        result == Err::<ScanOutcome, QueryError>(overflow_error())
    } else {
        result matches Ok(outcome) && {
            &&& outcome.candidates@ == best_with_ties(
                ranked(part_candidates(parts, parts.len())),
                least(k, row_count),
            )
            &&& outcome.worst_score is None
            &&& outcome.stats.dims_touched == part_dims(parts, parts.len())
            &&& outcome.stats.bytes_read == part_bytes(parts, parts.len())
            &&& outcome.stats.threads_used == workers
            &&& outcome.stats.worker_thread_ids@ == part_workers(parts, parts.len())
        }
    }
}

/// Merges the parts of a scan: the best `k` of all candidates with ties, the sum
/// of the work, and every worker once.
pub fn merge_partitions(parts: &Vec<PartitionScan>, row_count: usize, workers: usize, k: usize) -> (result:
    Result<ScanOutcome, ScanError>)
    ensures
        match result {
            Ok(outcome) => {
                &&& part_dims(parts@, parts@.len()) <= u64::MAX
                &&& part_bytes(parts@, parts@.len()) <= u64::MAX
                &&& outcome.candidates@ == best_with_ties(
                    ranked(part_candidates(parts@, parts@.len())),
                    least(k as nat, row_count as nat),
                )
                &&& outcome.worst_score is None
                &&& outcome.stats.dims_touched == part_dims(parts@, parts@.len())
                &&& outcome.stats.bytes_read == part_bytes(parts@, parts@.len())
                &&& outcome.stats.threads_used == workers
                &&& outcome.stats.worker_thread_ids@ == part_workers(parts@, parts@.len())
            },
            Err(error) => {
                &&& error == ScanError::ArithmeticOverflow
                &&& part_dims(parts@, parts@.len()) > u64::MAX || part_bytes(
                    parts@,
                    parts@.len(),
                ) > u64::MAX
            },
        },
{
    let mut candidates: Vec<ScanCandidate> = Vec::new();
    let mut dims_touched: u64 = 0;
    let mut bytes_read: u64 = 0;
    let mut worker_thread_ids: Vec<u64> = Vec::with_capacity(workers);
    let mut at: usize = 0;
    while at < parts.len()
        invariant
            at <= parts@.len(),
            candidates@ == part_candidates(parts@, at as nat),
            dims_touched == part_dims(parts@, at as nat),
            bytes_read == part_bytes(parts@, at as nat),
            worker_thread_ids@ == part_workers(parts@, at as nat),
        decreases parts.len() - at,
    {
        proof {
            lemma_parts_grow(parts@, (at + 1) as nat, parts@.len());
        }
        dims_touched =
        match dims_touched.checked_add(parts[at].dims_touched) {
            Some(sum) => sum,
            None => {
                return Err(ScanError::ArithmeticOverflow);
            },
        };
        bytes_read =
        match bytes_read.checked_add(parts[at].bytes_read) {
            Some(sum) => sum,
            None => {
                return Err(ScanError::ArithmeticOverflow);
            },
        };
        let mut ids: Vec<u64> = Vec::new();
        ids.push(parts[at].worker_thread_id);
        assert(ids@ == seq![parts@[at as int].worker_thread_id]);
        add_workers(&mut worker_thread_ids, &ids);
        push_all(&mut candidates, &parts[at].candidates);
        at = at + 1;
    }
    rank_items(&mut candidates);
    truncate_to_k_with_score_ties(&mut candidates, least_of(k, row_count));
    Ok(
        ScanOutcome {
            candidates,
            worst_score: None,
            stats: ScanStats {
                dims_touched,
                bytes_read,
                threads_used: workers,
                worker_thread_ids,
            },
        },
    )
}

/// What a scan covers: its rows, and the units that its work comes in.
#[derive(Clone, Copy, Debug, PartialEq, Eq, Structural)]
pub struct ScanGeometry {
    pub row_count: usize,
    pub work_units: usize,
}

/// The failure of work that is handed to a pool after it was stopped.
pub open spec fn stopped_pool() -> QueryError {
    QueryError::Store(StoreError::Synchronization { component: "stopped query pool" })
}

/// Plans a scan: the rows of each worker, in slot order. A scan without a shape
/// fails first, then one whose rows cannot be parted, then one whose pool was
/// stopped.
pub fn plan_scan(
    worker_count: usize,
    running: bool,
    geometry: Result<ScanGeometry, ScanError>,
    thread_budget: usize,
) -> (result: Result<Vec<RowRange>, QueryError>)
    ensures
        match geometry {
            Err(error) => result == Err::<Vec<RowRange>, QueryError>(QueryError::Scan(error)),
            Ok(shape) => {
                let workers = scan_workers_spec(
                    worker_count as nat,
                    thread_budget as nat,
                    shape.work_units as nat,
                );
                if workers * shape.row_count > usize::MAX {
                    result == Err::<Vec<RowRange>, QueryError>(overflow_error())
                } else if !running {
                    result == Err::<Vec<RowRange>, QueryError>(stopped_pool())
                } else {
                    &&& result matches Ok(ranges) && ranges@.len() == workers && forall|w: int|
                        0 <= w < workers ==> (#[trigger] ranges@[w]).start == part_start(
                            shape.row_count as nat,
                            workers,
                            w as nat,
                        ) && ranges@[w].end == part_start(
                            shape.row_count as nat,
                            workers,
                            (w + 1) as nat,
                        )
                }
            },
        },
{
    let shape = match geometry {
        Ok(shape) => shape,
        Err(error) => {
            return Err(QueryError::Scan(error));
        },
    };
    let workers: usize = scan_workers(worker_count, thread_budget, shape.work_units);
    match partition_row_count(shape.row_count, workers) {
        Err(error) => Err(QueryError::Scan(error)),
        Ok(ranges) => {
            if running {
                Ok(ranges)
            } else {
                Err(QueryError::Store(StoreError::Synchronization { component: "stopped query pool" }))
            }
        },
    }
}

/// Ends a scan once every slot has reported: a stop comes before the failure of
/// a slot, and that before the merge.
pub fn finish_scan(
    cancellation: &QueryCancellation,
    flags: &StopFlags,
    results: Vec<Option<Result<PartitionScan, ScanError>>>,
    row_count: usize,
    k: usize,
) -> (result: Result<ScanOutcome, QueryError>)
    ensures
        match stop_of(*cancellation, flags@) {
            Some(error) => result == Err::<ScanOutcome, QueryError>(error),
            None => {
                ||| exists|at: int| #[trigger]
                    first_failed_slot(results@, at) && slot_failure(results@[at]) == Some(
                        result->Err_0,
                    ) && result is Err
                ||| exists|parts: Seq<PartitionScan>| #[trigger]
                    gathers(results@, parts) && merges(
                        parts,
                        row_count as nat,
                        results@.len(),
                        k as nat,
                        result,
                    )
            },
        },
{
    completion_stop(cancellation, flags)?;
    let ghost slots = results@;
    let workers: usize = results.len();
    let parts = gather_partitions(results)?;
    assert(gathers(slots, parts@));
    match merge_partitions(&parts, row_count, workers, k) {
        Ok(outcome) => Ok(outcome),
        Err(error) => Err(QueryError::Scan(error)),
    }
}

/// Scans rows of the store: through the pool, or, while vector faults are armed,
/// in one part on the caller. `faulted` is that part, where there is one.
pub fn execute_store_scan(
    geometry: Result<ScanGeometry, ScanError>,
    faulted: Option<Result<PartitionScan, ScanError>>,
    pooled: Result<ScanOutcome, QueryError>,
) -> (result: Result<ScanOutcome, QueryError>)
    ensures
        match (faulted, geometry) {
            (None, _) => result == pooled,
            (Some(_), Err(error)) => result == Err::<ScanOutcome, QueryError>(
                QueryError::Scan(error),
            ),
            (Some(Err(error)), Ok(_)) => result == Err::<ScanOutcome, QueryError>(
                scan_failure(error),
            ),
            (Some(Ok(part)), Ok(_)) => result matches Ok(outcome) && {
                &&& outcome.candidates == part.candidates
                &&& outcome.worst_score is None
                &&& outcome.stats.dims_touched == part.dims_touched
                &&& outcome.stats.bytes_read == part.bytes_read
                &&& outcome.stats.threads_used == 1
                &&& outcome.stats.worker_thread_ids@ == seq![part.worker_thread_id]
            },
        },
{
    let scanned = match faulted {
        None => {
            return pooled;
        },
        Some(scanned) => scanned,
    };
    if let Err(error) = geometry {
        return Err(QueryError::Scan(error));
    }
    match scanned {
        Err(error) => Err(map_scan_error(error)),
        Ok(part) => {
            let mut worker_thread_ids: Vec<u64> = Vec::new();
            worker_thread_ids.push(part.worker_thread_id);
            Ok(
                ScanOutcome {
                    candidates: part.candidates,
                    worst_score: None,
                    stats: ScanStats {
                        dims_touched: part.dims_touched,
                        bytes_read: part.bytes_read,
                        threads_used: 1,
                        worker_thread_ids,
                    },
                },
            )
        },
    }
}

/// Failure of one part of an exact scan.
#[derive(Clone, Debug, PartialEq, Eq)]
pub enum ExactScanError {
    Query(QueryError),
    /// A score that single precision cannot hold.
    Narrowing { row_id: usize, score: Double },
}

/// Result of one slot of an exact scan.
pub type ExactResult = Option<Result<ScanOutcome, ExactScanError>>;

/// What a look over the slots of an exact scan finds.
pub struct SlotSurvey {
    /// Candidates of the parts.
    pub retained: nat,
    /// The first failure in slot order.
    pub first_error: Option<QueryError>,
    /// The best score that could not be narrowed, and its row.
    pub narrowing: Option<(usize, Double)>,
}

/// Whether one unnarrowed score is reported rather than another: the higher one,
/// and of equal ones that of the smaller row.
pub open spec fn outranks(row: usize, score: Double, other: Option<(usize, Double)>) -> bool {
    match other {
        None => true,
        Some(held) => score.order() > held.1.order() || (score.order() == held.1.order() && row
            < held.0),
    }
}

/// What a look over the first `n` slots finds.
pub open spec fn survey(results: Seq<ExactResult>, n: nat) -> SlotSurvey
    decreases n,
{
    if n == 0 {
        SlotSurvey { retained: 0, first_error: None, narrowing: None }
    } else {
        let earlier = survey(results, (n - 1) as nat);
        match results[n - 1] {
            Some(Ok(part)) => SlotSurvey {
                retained: earlier.retained + part.candidates@.len(),
                ..earlier
            },
            Some(Err(ExactScanError::Query(error))) => SlotSurvey {
                first_error: if earlier.first_error is None {
                    Some(error)
                } else {
                    earlier.first_error
                },
                ..earlier
            },
            Some(Err(ExactScanError::Narrowing { row_id, score })) => SlotSurvey {
                narrowing: if outranks(row_id, score, earlier.narrowing) {
                    Some((row_id, score))
                } else {
                    earlier.narrowing
                },
                ..earlier
            },
            None => SlotSurvey {
                first_error: if earlier.first_error is None {
                    Some(
                        QueryError::Store(
                            StoreError::Synchronization { component: "exact query result slot" },
                        ),
                    )
                } else {
                    earlier.first_error
                },
                ..earlier
            },
        }
    }
}

/// The failure that the slots of an exact scan decide: completion order never
/// does. Failures of single scores come behind all others.
pub open spec fn survey_failure(found: SlotSurvey) -> Option<QueryError> {
    if found.retained > usize::MAX {
        Some(overflow_error())
    } else if found.first_error is Some {
        found.first_error
    } else {
        match found.narrowing {
            Some(held) => Some(QueryError::Scan(ScanError::NonFiniteScore { row_id: held.0 })),
            None => None,
        }
    }
}

proof fn lemma_survey_grows(results: Seq<ExactResult>, n: nat, end: nat)
    requires
        n <= end <= results.len(),
    ensures
        survey(results, n).retained <= survey(results, end).retained,
        survey(results, n).first_error is Some ==> survey(results, end).first_error == survey(
            results,
            n,
        ).first_error,
        survey(results, n).narrowing is Some ==> survey(results, end).narrowing is Some,
    decreases end - n,
{
    if n < end {
        lemma_survey_grows(results, n, (end - 1) as nat);
    }
}

/// Candidates of the first `n` slots, in slot order.
pub open spec fn exact_candidates(results: Seq<ExactResult>, n: nat) -> Seq<ScanCandidate>
    decreases n,
{
    if n == 0 {
        Seq::empty()
    } else {
        match results[n - 1] {
            Some(Ok(part)) => exact_candidates(results, (n - 1) as nat) + part.candidates@,
            _ => exact_candidates(results, (n - 1) as nat),
        }
    }
}

/// Values that the first `n` slots touched.
pub open spec fn exact_dims(results: Seq<ExactResult>, n: nat) -> nat
    decreases n,
{
    if n == 0 {
        0
    } else {
        exact_dims(results, (n - 1) as nat) + match results[n - 1] {
            Some(Ok(part)) => part.stats.dims_touched as nat,
            _ => 0,
        }
    }
}

/// Bytes that the first `n` slots read.
pub open spec fn exact_bytes(results: Seq<ExactResult>, n: nat) -> nat
    decreases n,
{
    if n == 0 {
        0
    } else {
        exact_bytes(results, (n - 1) as nat) + match results[n - 1] {
            Some(Ok(part)) => part.stats.bytes_read as nat,
            _ => 0,
        }
    }
}

/// Workers of the first `n` slots.
pub open spec fn exact_worker_ids(results: Seq<ExactResult>, n: nat) -> Seq<u64>
    decreases n,
{
    if n == 0 {
        Seq::empty()
    } else {
        match results[n - 1] {
            Some(Ok(part)) => distinct_union(
                exact_worker_ids(results, (n - 1) as nat),
                part.stats.worker_thread_ids@,
            ),
            _ => exact_worker_ids(results, (n - 1) as nat),
        }
    }
}

/// The worst score of the first `n` slots.
pub open spec fn exact_worst(results: Seq<ExactResult>, n: nat) -> Option<Score>
    decreases n,
{
    if n == 0 {
        None
    } else {
        let earlier = exact_worst(results, (n - 1) as nat);
        match results[n - 1] {
            Some(Ok(part)) => match part.worst_score {
                Some(score) => match earlier {
                    None => Some(score),
                    Some(worst) => if score.order() < worst.order() {
                        Some(score)
                    } else {
                        earlier
                    },
                },
                None => earlier,
            },
            _ => earlier,
        }
    }
}

proof fn lemma_exact_sums_grow(results: Seq<ExactResult>, n: nat, end: nat)
    requires
        n <= end <= results.len(),
    ensures
        exact_dims(results, n) <= exact_dims(results, end),
        exact_bytes(results, n) <= exact_bytes(results, end),
    decreases end - n,
{
    if n < end {
        lemma_exact_sums_grow(results, n, (end - 1) as nat);
    }
}

/// The failure to merge an exact scan, if there is one.
pub open spec fn exact_failure(
    results: Seq<ExactResult>,
    room: Result<(), StoreError>,
) -> Option<QueryError> {
    let found = survey_failure(survey(results, results.len()));
    if found is Some {
        found
    } else {
        match room {
            Err(error) => Some(QueryError::Store(error)),
            Ok(_) => if exact_dims(results, results.len()) > u64::MAX || exact_bytes(
                results,
                results.len(),
            ) > u64::MAX {
                Some(overflow_error())
            } else {
                None
            },
        }
    }
}

/// The outcome that the slots of an exact scan merge to.
pub open spec fn is_exact_merge(results: Seq<ExactResult>, k: nat, outcome: ScanOutcome) -> bool {
    let n = results.len();
    &&& outcome.candidates@ == best_with_ties(ranked(exact_candidates(results, n)), k)
    &&& outcome.worst_score == exact_worst(results, n)
    &&& outcome.stats.dims_touched == exact_dims(results, n)
    &&& outcome.stats.bytes_read == exact_bytes(results, n)
    &&& outcome.stats.worker_thread_ids@ == exact_worker_ids(results, n)
    &&& outcome.stats.threads_used == exact_worker_ids(results, n).len()
}

fn survey_slots(results: &mut Vec<ExactResult>) -> (result: Result<(), QueryError>)
    ensures
        final(results)@.len() == old(results)@.len(),
        match survey_failure(survey(old(results)@, old(results)@.len())) {
            Some(error) => result == Err::<(), QueryError>(error),
            None => result is Ok && final(results)@ == old(results)@,
        },
{
    let ghost all = results@;
    let mut retained: usize = 0;
    let mut first_error: Option<QueryError> = None;
    let mut narrowing: Option<(usize, Double)> = None;
    let mut at: usize = 0;
    while at < results.len()
        invariant
            at <= results@.len(),
            all == old(results)@,
            results@.len() == all.len(),
            forall|i: int| at <= i < all.len() ==> results@[i] == #[trigger] all[i],
            first_error is None && narrowing is None ==> results@ == all,
            survey(all, at as nat) == (SlotSurvey {
                retained: retained as nat,
                first_error,
                narrowing,
            }),
        decreases results.len() - at,
    {
        proof {
            lemma_survey_grows(all, (at + 1) as nat, all.len());
            assert(results@[at as int] == all[at as int]);
        }
        let mut taken: ExactResult = None;
        std::mem::swap(&mut taken, &mut results[at]);
        match taken {
            Some(Ok(part)) => {
                match retained.checked_add(part.candidates.len()) {
                    Some(sum) => {
                        retained = sum;
                    },
                    None => {
                        return Err(QueryError::Scan(ScanError::ArithmeticOverflow));
                    },
                }
                let mut back: ExactResult = Some(Ok(part));
                std::mem::swap(&mut back, &mut results[at]);
                assert(first_error is None && narrowing is None ==> results@ == all);
            },
            Some(Err(ExactScanError::Query(error))) => {
                if first_error.is_none() {
                    first_error = Some(error);
                }
            },
            Some(Err(ExactScanError::Narrowing { row_id, score })) => {
                let replace = match narrowing {
                    None => true,
                    Some(held) => held.1.below(score) || (!score.below(held.1) && row_id < held.0),
                };
                if replace {
                    narrowing = Some((row_id, score));
                }
            },
            None => {
                if first_error.is_none() {
                    first_error = Some(
                        QueryError::Store(
                            StoreError::Synchronization { component: "exact query result slot" },
                        ),
                    );
                }
            },
        }
        at = at + 1;
    }
    if let Some(error) = first_error {
        return Err(error);
    }
    if let Some(held) = narrowing {
        return Err(QueryError::Scan(ScanError::NonFiniteScore { row_id: held.0 }));
    }
    Ok(())
}

/// Merges the slots of an exact scan. Every slot is looked at before anything is
/// merged, so that slot order and not completion order selects the failure.
/// `room` says whether there was memory for the merge.
pub fn merge_exact(results: Vec<ExactResult>, k: usize, room: Result<(), StoreError>) -> (result:
    Result<ScanOutcome, QueryError>)
    ensures
        match exact_failure(results@, room) {
            Some(error) => result == Err::<ScanOutcome, QueryError>(error),
            None => result matches Ok(outcome) && is_exact_merge(results@, k as nat, outcome),
        },
{
    let ghost all = results@;
    let mut slots = results;
    survey_slots(&mut slots)?;
    if let Err(error) = room {
        return Err(QueryError::Store(error));
    }
    let mut candidates: Vec<ScanCandidate> = Vec::new();
    let mut dims_touched: u64 = 0;
    let mut bytes_read: u64 = 0;
    let mut worst_score: Option<Score> = None;
    let mut worker_thread_ids: Vec<u64> = Vec::new();
    let mut at: usize = 0;
    while at < slots.len()
        invariant
            at <= slots@.len(),
            slots@ == all,
            all == results@,
            room is Ok,
            survey_failure(survey(all, all.len())) is None,
            candidates@ == exact_candidates(all, at as nat),
            dims_touched == exact_dims(all, at as nat),
            bytes_read == exact_bytes(all, at as nat),
            worst_score == exact_worst(all, at as nat),
            worker_thread_ids@ == exact_worker_ids(all, at as nat),
        decreases slots.len() - at,
    {
        proof {
            lemma_exact_sums_grow(all, (at + 1) as nat, all.len());
        }
        match &slots[at] {
            Some(Ok(part)) => {
                dims_touched =
                match dims_touched.checked_add(part.stats.dims_touched) {
                    Some(sum) => sum,
                    None => {
                        return Err(QueryError::Scan(ScanError::ArithmeticOverflow));
                    },
                };
                bytes_read =
                match bytes_read.checked_add(part.stats.bytes_read) {
                    Some(sum) => sum,
                    None => {
                        return Err(QueryError::Scan(ScanError::ArithmeticOverflow));
                    },
                };
                if let Some(score) = part.worst_score {
                    let lower = match worst_score {
                        None => true,
                        Some(worst) => score.below(worst),
                    };
                    if lower {
                        worst_score = Some(score);
                    }
                }
                add_workers(&mut worker_thread_ids, &part.stats.worker_thread_ids);
                push_all(&mut candidates, &part.candidates);
            },
            _ => {},
        }
        at = at + 1;
    }
    rank_items(&mut candidates);
    truncate_to_k_with_score_ties(&mut candidates, k);
    let threads_used: usize = worker_thread_ids.len();
    Ok(
        ScanOutcome {
            candidates,
            worst_score,
            stats: ScanStats { dims_touched, bytes_read, threads_used, worker_thread_ids },
        },
    )
}

/// Plans an exact scan: which worker scans which rows, in slot order.
/// `reserved` is whether the ceilings took the execution's own memory.
pub fn plan_exact(
    worker_count: usize,
    running: bool,
    rows: usize,
    dimension: usize,
    requested: usize,
    lane: usize,
    reserved: Result<(), StoreError>,
) -> (result: Result<Vec<ExactSlot>, QueryError>)
    ensures
        match reserved {
            Err(error) => result == Err::<Vec<ExactSlot>, QueryError>(QueryError::Store(error)),
            Ok(_) => {
                let workers = exact_workers_spec(
                    worker_count as nat,
                    rows as nat,
                    dimension as nat,
                    requested as nat,
                );
                if !running {
                    result == Err::<Vec<ExactSlot>, QueryError>(stopped_pool())
                } else if worker_count == 0 || workers * rows > usize::MAX {
                    result == Err::<Vec<ExactSlot>, QueryError>(overflow_error())
                } else {
                    result matches Ok(slots) && assigns(
                        slots@,
                        rows as nat,
                        workers,
                        exact_capacity_spec(worker_count as nat),
                        lane as nat,
                    )
                }
            },
        },
{
    if let Err(error) = reserved {
        return Err(QueryError::Store(error));
    }
    if !running {
        return Err(
            QueryError::Store(StoreError::Synchronization { component: "stopped query pool" }),
        );
    }
    let workers: usize = exact_workers(worker_count, rows, dimension, requested);
    assign_exact(rows, workers, exact_capacity(worker_count), lane)
}

/// A fault that a worker of an exact scan is armed with.
#[derive(Clone, Copy, Debug, PartialEq, Eq, Structural)]
pub enum ExactWorkerFault {
    Panic,
    NonFinite { row_id: usize },
}

/// What the slot of a worker that met its fault reports.
pub fn exact_worker_failure(fault: ExactWorkerFault) -> (error: ExactScanError)
    ensures
        error == ExactScanError::Query(
            QueryError::Scan(
                match fault {
                    ExactWorkerFault::Panic => ScanError::WorkerPanicked,
                    ExactWorkerFault::NonFinite { row_id } => ScanError::NonFiniteScore { row_id },
                },
            ),
        ),
{
    match fault {
        ExactWorkerFault::Panic => ExactScanError::Query(
            QueryError::Scan(ScanError::WorkerPanicked),
        ),
        ExactWorkerFault::NonFinite { row_id } => ExactScanError::Query(
            QueryError::Scan(ScanError::NonFiniteScore { row_id }),
        ),
    }
}

/// Ends an exact scan once every slot that was admitted has reported: a stop
/// comes first, then a gathering that a panic left `poisoned`, then the failures
/// of the slots and of the merge.
pub fn finish_exact(
    cancellation: &QueryCancellation,
    flags: &StopFlags,
    poisoned: bool,
    results: Vec<ExactResult>,
    k: usize,
    room: Result<(), StoreError>,
) -> (result: Result<ScanOutcome, QueryError>)
    ensures
        match stop_of(*cancellation, flags@) {
            Some(error) => result == Err::<ScanOutcome, QueryError>(error),
            None => if poisoned {
                result == Err::<ScanOutcome, QueryError>(
                    QueryError::Store(
                        StoreError::Synchronization { component: "exact query completion" },
                    ),
                )
            } else {
                match exact_failure(results@, room) {
                    Some(error) => result == Err::<ScanOutcome, QueryError>(error),
                    None => result matches Ok(outcome) && is_exact_merge(
                        results@,
                        k as nat,
                        outcome,
                    ),
                }
            },
        },
{
    completion_stop(cancellation, flags)?;
    if poisoned {
        return Err(
            QueryError::Store(StoreError::Synchronization { component: "exact query completion" }),
        );
    }
    merge_exact(results, k, room)
}

/// Rows of the first `n` parts, in order.
pub open spec fn rows_of(parts: Seq<Seq<ScanCandidate>>, n: nat) -> Seq<ScanCandidate>
    decreases n,
{
    if n == 0 {
        Seq::empty()
    } else {
        rows_of(parts, (n - 1) as nat) + parts[n - 1]
    }
}

/// Parting a scan changes no result: where each part keeps its own best `k` with
/// ties, the best `k` with ties of all parts together are those of all rows.
pub proof fn lemma_parted_scan_equals_serial_scan(
    results: Seq<ExactResult>,
    parts: Seq<Seq<ScanCandidate>>,
    k: nat,
    n: nat,
)
    requires
        n <= results.len(),
        results.len() == parts.len(),
        forall|i: int|
            0 <= i < results.len() ==> ((#[trigger] results[i]) matches Some(Ok(part))
                && part.candidates@ == best_with_ties(ranked(parts[i]), k)),
    ensures
        best_with_ties(ranked(exact_candidates(results, n)), k) == best_with_ties(
            ranked(rows_of(parts, n)),
            k,
        ),
    decreases n,
{
    if n > 0 {
        let earlier = exact_candidates(results, (n - 1) as nat);
        let rows = rows_of(parts, (n - 1) as nat);
        lemma_parted_scan_equals_serial_scan(results, parts, k, (n - 1) as nat);
        assert(results[n - 1] is Some);
        let kept = best_with_ties(ranked(parts[n - 1]), k);
        lemma_ties_of_parts(earlier, kept, k);
        lemma_ties_of_ties(parts[n - 1], k);
        lemma_ties_of_parts(rows, parts[n - 1], k);
    }
}

/// The outcome of stopping a pool: a worker that panicked is reported.
pub fn stop_and_join(panicked: &Vec<bool>) -> (result: Result<(), StoreError>)
    ensures
        result == if exists|i: int| 0 <= i < panicked@.len() && #[trigger] panicked@[i] {
            Err(StoreError::QueryPoolThreadPanicked)
        } else {
            Ok(())
        },
        result is Err <==> panicked@.contains(true),
{
    let mut at: usize = 0;
    while at < panicked.len()
        invariant
            at <= panicked@.len(),
            forall|i: int| 0 <= i < at ==> !#[trigger] panicked@[i],
        decreases panicked.len() - at,
    {
        if panicked[at] {
            assert(panicked@[at as int]);
            return Err(StoreError::QueryPoolThreadPanicked);
        }
        at = at + 1;
    }
    Ok(())
}

/// How a worker's start went.
pub fn worker_started(spawned: Result<(), IoError>, ready: bool) -> (result: Result<(), StoreError>)
    ensures
        result == match spawned {
            Err(source) => Err(StoreError::QueryPoolStart { source }),
            Ok(_) => if ready {
                Ok(())
            } else {
                Err(StoreError::QueryPoolHandshake)
            },
        },
{
    match spawned {
        Err(source) => Err(StoreError::QueryPoolStart { source }),
        Ok(_) => {
            if ready {
                Ok(())
            } else {
                Err(StoreError::QueryPoolHandshake)
            }
        },
    }
}

/// Why the lexical worker could not be used.
#[derive(Clone, Debug, PartialEq, Eq)]
pub enum LexicalWorkerFault {
    /// Its thread could not be started.
    Unspawned(String),
    /// Its thread did not report for work.
    Handshake,
    /// A panic left its lock poisoned.
    Poisoned,
    Stopped,
    /// It went away before it took the work.
    Submission,
    /// It went away before it replied.
    Disconnected,
}

impl LexicalWorkerFault {
    pub open spec fn spec_detail(self) -> Seq<char> {
        match self {
            LexicalWorkerFault::Unspawned(text) => text@,
            LexicalWorkerFault::Handshake => "pooled lexical worker startup handshake failed"@,
            LexicalWorkerFault::Poisoned => "pooled lexical worker synchronization was poisoned"@,
            LexicalWorkerFault::Stopped => "pooled lexical worker was stopped"@,
            LexicalWorkerFault::Submission =>
                "pooled lexical worker disconnected during submission"@,
            LexicalWorkerFault::Disconnected =>
                "pooled lexical worker disconnected before reporting a result"@,
        }
    }

    /// What the fault is reported as.
    pub open spec fn is_reported_by(self, error: FusionError) -> bool {
        error matches FusionError::LegThreadStart { leg, detail } && leg == FusionLeg::Lexical
            && detail@ == self.spec_detail()
    }

    /// The fault as a failure of the lexical leg.
    pub fn into_error(self) -> (error: FusionError)
        ensures
            self.is_reported_by(error),
    {
        let detail = match self {
            LexicalWorkerFault::Unspawned(text) => text,
            LexicalWorkerFault::Handshake =>
                "pooled lexical worker startup handshake failed".to_owned(),
            LexicalWorkerFault::Poisoned =>
                "pooled lexical worker synchronization was poisoned".to_owned(),
            LexicalWorkerFault::Stopped => "pooled lexical worker was stopped".to_owned(),
            LexicalWorkerFault::Submission =>
                "pooled lexical worker disconnected during submission".to_owned(),
            LexicalWorkerFault::Disconnected =>
                "pooled lexical worker disconnected before reporting a result".to_owned(),
        };
        FusionError::LegThreadStart { leg: FusionLeg::Lexical, detail }
    }
}

/// Reply of the lexical worker.
#[derive(Debug)]
pub enum LexicalReply<R> {
    Completed(R),
    Panicked,
    /// There is no reply.
    Faulted(LexicalWorkerFault),
}

/// What a reply of the lexical worker means for the query.
pub fn lexical_reply<R>(reply: LexicalReply<R>) -> (result: Result<R, FusionError>)
    ensures
        match reply {
            LexicalReply::Completed(value) => result == Ok::<R, FusionError>(value),
            LexicalReply::Panicked => result == Err::<R, FusionError>(
                FusionError::LegPanic {
                    leg: FusionLeg::Lexical,
                    detail: "lexical hybrid leg panicked",
                },
            ),
            LexicalReply::Faulted(fault) => result matches Err(error) && fault.is_reported_by(
                error,
            ),
        },
{
    match reply {
        LexicalReply::Completed(value) => Ok(value),
        LexicalReply::Panicked => Err(
            FusionError::LegPanic {
                leg: FusionLeg::Lexical,
                detail: "lexical hybrid leg panicked",
            },
        ),
        LexicalReply::Faulted(fault) => Err(fault.into_error()),
    }
}

} // verus!
