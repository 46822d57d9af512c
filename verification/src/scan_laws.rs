//! What a parted scan answers, in terms of its parts and of the rows that they read.

use crate::candidates::ScanCandidate;
use crate::candidates::ScanOutcome;
use crate::control::QueryCancellation;
use crate::control::StopFlags;
use crate::error::QueryError;
use crate::error::ScanError;
use crate::error::StoreError;
use crate::lexical_laws::sum_of;
use crate::pool::assign_exact;
use crate::pool::exact_bytes;
use crate::pool::exact_candidates;
use crate::pool::exact_dims;
use crate::pool::exact_workers;
use crate::pool::exact_worst;
use crate::pool::finish_scan;
use crate::pool::first_failed_slot;
use crate::pool::gather_partitions;
use crate::pool::gathers;
use crate::pool::least;
use crate::pool::lemma_parts_cover_every_row;
use crate::pool::merge_exact;
use crate::pool::merge_partitions;
use crate::pool::merges;
use crate::pool::part_bytes;
use crate::pool::part_candidates;
use crate::pool::part_dims;
use crate::pool::part_start;
use crate::pool::partition_row_count;
use crate::pool::scan_workers;
use crate::pool::slot_failure;
use crate::pool::stop_of;
use crate::pool::survey;
use crate::pool::ExactResult;
use crate::pool::ExactScanError;
use crate::pool::ExactSlot;
use crate::pool::PartitionScan;
use crate::pool::RowRange;
use crate::rank::best_with_ties;
use crate::rank::ranked;
use crate::score::Double;
use crate::score::Score;
use crate::vector_laws::lemma_a_scan_keeps_the_nearest_rows;
use crate::vector_laws::scanned_nearer;
use vstd::prelude::*;

verus! {

/// Whether ranges part `row_count` rows: the first starts at the first row, each ends
/// where the next one starts, and the last ends behind the last row.
pub open spec fn parts_rows(ranges: Seq<RowRange>, row_count: int) -> bool {
    &&& ranges.len() > 0
    &&& ranges[0].start == 0
    &&& ranges.last().end == row_count
    &&& forall|w: int|
        0 <= w < ranges.len() ==> (#[trigger] ranges[w]).start <= ranges[w].end
    &&& forall|w: int|
        0 <= w < ranges.len() - 1 ==> (#[trigger] ranges[w]).end == ranges[w + 1].start
}

/// Whether a row lies in a range.
pub open spec fn lies_in(row: int, range: RowRange) -> bool {
    range.start <= row < range.end
}

proof fn lemma_parts_are_even(row_count: nat, workers: nat, w: nat)
    requires
        0 < workers,
        w < workers,
    ensures
        part_start(row_count, workers, w + 1) - part_start(row_count, workers, w) >= row_count
            / workers,
        part_start(row_count, workers, w + 1) - part_start(row_count, workers, w) <= row_count
            / workers + 1,
{
    let (r, n, v) = (row_count as int, workers as int, w as int);
    let a = (v * r) / n;
    let b = ((v + 1) * r) / n;
    let q = r / n;
    assert((v + 1) * r == v * r + r) by (nonlinear_arith);
    vstd::arithmetic::div_mod::lemma_fundamental_div_mod(v * r, n);
    vstd::arithmetic::div_mod::lemma_fundamental_div_mod((v + 1) * r, n);
    vstd::arithmetic::div_mod::lemma_fundamental_div_mod(r, n);
    vstd::arithmetic::div_mod::lemma_mod_bound(v * r, n);
    vstd::arithmetic::div_mod::lemma_mod_bound((v + 1) * r, n);
    vstd::arithmetic::div_mod::lemma_mod_bound(r, n);
    let d = b - a - q;
    assert(n * d == n * b - n * a - n * q) by (nonlinear_arith)
        requires
            d == b - a - q,
    ;
    assert(d >= 0 && d <= 1) by (nonlinear_arith)
        requires
            n > 0,
            n * d > -n,
            n * d < 2 * n,
    ;
}

/// Ranges that start where the parts of a scan start part its rows, evenly.
pub proof fn lemma_ranges_part_the_rows(ranges: Seq<RowRange>, row_count: nat)
    requires
        ranges.len() > 0,
        forall|w: int|
            0 <= w < ranges.len() ==> (#[trigger] ranges[w]).start == part_start(
                row_count,
                ranges.len(),
                w as nat,
            ) && ranges[w].end == part_start(row_count, ranges.len(), (w + 1) as nat),
    ensures
        parts_rows(ranges, row_count as int),
        forall|w: int|
            0 <= w < ranges.len() ==> row_count / ranges.len() <= (#[trigger] ranges[w]).end
                - ranges[w].start <= row_count / ranges.len() + 1,
{
    lemma_parts_cover_every_row(row_count, ranges.len(), 0);
    assert forall|w: int| 0 <= w < ranges.len() implies row_count / ranges.len() <= (
    #[trigger] ranges[w]).end - ranges[w].start <= row_count / ranges.len() + 1 by {
        lemma_parts_are_even(row_count, ranges.len(), w as nat);
    }
    assert forall|w: int| 0 <= w < ranges.len() implies (#[trigger] ranges[w]).start
        <= ranges[w].end by {
        lemma_parts_cover_every_row(row_count, ranges.len(), w as nat);
    }
    assert(ranges.last() == ranges[ranges.len() - 1]);
}

proof fn lemma_later_ranges_start_later(ranges: Seq<RowRange>, row_count: int, a: int, b: int)
    requires
        parts_rows(ranges, row_count),
        0 <= a < b < ranges.len(),
    ensures
        ranges[a].end <= ranges[b].start,
    decreases b - a,
{
    if a + 1 < b {
        lemma_later_ranges_start_later(ranges, row_count, a, b - 1);
        assert(ranges[b - 1].end == ranges[b - 1 + 1].start);
    } else {
        assert(ranges[a].end == ranges[a + 1].start);
    }
}

proof fn lemma_some_range_holds(ranges: Seq<RowRange>, row_count: int, row: int, from: int)
    requires
        parts_rows(ranges, row_count),
        0 <= from < ranges.len(),
        ranges[from].start <= row < row_count,
    ensures
        exists|w: int| 0 <= w < ranges.len() && #[trigger] lies_in(row, ranges[w]),
    decreases ranges.len() - from,
{
    if row < ranges[from].end {
        assert(lies_in(row, ranges[from]));
    } else {
        assert(ranges.last() == ranges[ranges.len() - 1]);
        assert(from < ranges.len() - 1);
        assert(ranges[from].end == ranges[from + 1].start);
        lemma_some_range_holds(ranges, row_count, row, from + 1);
    }
}

/// Where ranges part the rows, every row lies in exactly one of them, and no range
/// holds a row that there is not.
pub proof fn lemma_every_row_is_read_once(ranges: Seq<RowRange>, row_count: int, row: int)
    requires
        parts_rows(ranges, row_count),
    ensures
        0 <= row < row_count <==> exists|w: int|
            0 <= w < ranges.len() && #[trigger] lies_in(row, ranges[w]),
        forall|a: int, b: int|
            0 <= a < ranges.len() && 0 <= b < ranges.len() && #[trigger] lies_in(row, ranges[a])
                && #[trigger] lies_in(row, ranges[b]) ==> a == b,
{
    if 0 <= row < row_count {
        lemma_some_range_holds(ranges, row_count, row, 0);
    }
    assert forall|w: int| 0 <= w < ranges.len() && #[trigger] lies_in(row, ranges[w]) implies 0
        <= row < row_count by {
        assert(ranges.last() == ranges[ranges.len() - 1]);
        assert(ranges[ranges.len() - 1].start <= ranges[ranges.len() - 1].end);
        if w < ranges.len() - 1 {
            lemma_later_ranges_start_later(ranges, row_count, w, ranges.len() - 1);
        }
    }
    assert forall|a: int, b: int|
        0 <= a < ranges.len() && 0 <= b < ranges.len() && #[trigger] lies_in(row, ranges[a])
            && #[trigger] lies_in(row, ranges[b]) implies a == b by {
        if a < b {
            lemma_later_ranges_start_later(ranges, row_count, a, b);
        } else if b < a {
            lemma_later_ranges_start_later(ranges, row_count, b, a);
        }
    }
}

/// The rows of a scan are parted among its workers: each worker has one range, and the
/// ranges differ by at most one row.
pub proof fn lemma_a_scan_is_parted_among_its_workers(
    row_count: usize,
    workers: usize,
    result: Result<Vec<RowRange>, ScanError>,
)
    requires
        call_ensures(partition_row_count, (row_count, workers), result),
        workers > 0,
    ensures
        result is Err <==> workers * row_count > usize::MAX,
        result matches Ok(ranges) ==> {
            &&& ranges@.len() == workers
            &&& parts_rows(ranges@, row_count as int)
            &&& forall|a: int, b: int|
                0 <= a < workers && 0 <= b < workers ==> (#[trigger] ranges@[a]).end
                    - ranges@[a].start <= (#[trigger] ranges@[b]).end - ranges@[b].start + 1
        },
{
    if let Ok(ranges) = result {
        lemma_ranges_part_the_rows(ranges@, row_count as nat);
    }
}

/// The ranges of some slots, in order.
pub open spec fn ranges_of(slots: Seq<ExactSlot>) -> Seq<RowRange> {
    Seq::new(slots.len(), |w: int| slots[w].rows)
}

/// The slots of an exact scan part its rows, the first belongs to the reserved lane,
/// each next one to the next worker round and round, and while there are workers enough
/// no worker gets two.
pub proof fn lemma_exact_slots_go_round_the_workers(
    row_count: usize,
    workers: usize,
    available: usize,
    lane: usize,
    result: Result<Vec<ExactSlot>, QueryError>,
)
    requires
        call_ensures(assign_exact, (row_count, workers, available, lane), result),
        workers > 0,
    ensures
        result is Err <==> available == 0 || workers * row_count > usize::MAX,
        result matches Ok(slots) ==> {
            &&& slots@.len() == workers
            &&& parts_rows(ranges_of(slots@), row_count as int)
            &&& slots@[0].worker == lane % available
            &&& forall|w: int|
                0 <= w < workers ==> (#[trigger] slots@[w]).worker < available
            &&& forall|w: int|
                0 <= w < workers - 1 ==> slots@[w + 1].worker == if (
                #[trigger] slots@[w]).worker + 1 == available {
                    0
                } else {
                    slots@[w].worker + 1
                }
            &&& forall|a: int, b: int|
                0 <= a < b < workers <= available ==> (#[trigger] slots@[a]).worker != (
                #[trigger] slots@[b]).worker
        },
{
    if let Ok(slots) = result {
        let n = available as int;
        let from = lane as int % n;
        vstd::arithmetic::div_mod::lemma_mod_bound(lane as int, n);
        assert forall|w: int| 0 <= w < workers implies (ranges_of(slots@)[w]).start == part_start(
            row_count as nat,
            workers as nat,
            w as nat,
        ) && ranges_of(slots@)[w].end == part_start(
            row_count as nat,
            workers as nat,
            (w + 1) as nat,
        ) by {
            assert(slots@[w].rows.start == part_start(row_count as nat, workers as nat, w as nat));
        }
        lemma_ranges_part_the_rows(ranges_of(slots@), row_count as nat);
        assert forall|w: int| 0 <= w < workers implies (#[trigger] slots@[w]).worker < available by {
            vstd::arithmetic::div_mod::lemma_mod_bound(from + w, n);
        }
        vstd::arithmetic::div_mod::lemma_small_mod(from as nat, n as nat);
        assert(slots@[0].worker == from);
        assert forall|w: int| 0 <= w < workers - 1 implies slots@[w + 1].worker == if (
        #[trigger] slots@[w]).worker + 1 == available {
            0
        } else {
            slots@[w].worker + 1
        } by {
            let x = from + w;
            assert(slots@[w].worker == x % n);
            assert(slots@[w + 1].worker == (x + 1) % n);
            vstd::arithmetic::div_mod::lemma_fundamental_div_mod(x, n);
            vstd::arithmetic::div_mod::lemma_mod_bound(x, n);
            let (q, r) = (x / n, x % n);
            if r + 1 == n {
                assert(x + 1 == (q + 1) * n + 0) by (nonlinear_arith)
                    requires
                        x == n * q + r,
                        r + 1 == n,
                ;
                vstd::arithmetic::div_mod::lemma_fundamental_div_mod_converse(x + 1, n, q + 1, 0);
            } else {
                assert(x + 1 == q * n + (r + 1)) by (nonlinear_arith)
                    requires
                        x == n * q + r,
                ;
                vstd::arithmetic::div_mod::lemma_fundamental_div_mod_converse(x + 1, n, q, r + 1);
            }
        }
        assert forall|a: int, b: int| 0 <= a < b < workers <= available implies (
        #[trigger] slots@[a]).worker != (#[trigger] slots@[b]).worker by {
            let (x, y) = (from + a, from + b);
            vstd::arithmetic::div_mod::lemma_fundamental_div_mod(x, n);
            vstd::arithmetic::div_mod::lemma_fundamental_div_mod(y, n);
            if x % n == y % n {
                let d = y / n - x / n;
                assert(n * d == y - x) by (nonlinear_arith)
                    requires
                        x == n * (x / n) + x % n,
                        y == n * (y / n) + y % n,
                        x % n == y % n,
                        d == y / n - x / n,
                ;
                assert(false) by (nonlinear_arith)
                    requires
                        n > 0,
                        n * d == y - x,
                        0 < y - x < n,
                ;
            }
        }
    }
}

/// The workers of a scan are at least one where there are any, never more than there
/// are, than may be used or than there is work for, and no fewer than one of these
/// limits allows.
pub proof fn lemma_a_scan_uses_the_workers_it_may(
    worker_count: usize,
    thread_budget: usize,
    work_units: usize,
    workers: usize,
)
    requires
        call_ensures(scan_workers, (worker_count, thread_budget, work_units), workers),
    ensures
        workers <= worker_count,
        thread_budget > 0 ==> workers <= thread_budget,
        work_units > 0 ==> workers <= work_units,
        worker_count > 0 ==> workers > 0,
        workers == worker_count || (thread_budget > 0 && workers == thread_budget) || (work_units
            > 0 && workers == work_units) || (work_units == 0 && workers == 1),
        work_units == 0 ==> workers <= 1,
{
}

/// An exact scan is parted only where it is worth it: from 256 rows and 262144 values
/// on. It has never more workers than there are, than four, than were asked for or than
/// one per 64 rows, and always one.
pub proof fn lemma_an_exact_scan_is_parted_where_it_pays(
    worker_count: usize,
    rows: usize,
    dimension: usize,
    requested: usize,
    workers: usize,
)
    requires
        call_ensures(exact_workers, (worker_count, rows, dimension, requested), workers),
    ensures
        1 <= workers <= 4,
        rows < 256 || rows * dimension < 262_144 ==> workers == 1,
        worker_count > 0 ==> workers <= worker_count,
        requested > 0 ==> workers <= requested,
        rows >= 64 ==> 64 * workers <= rows,
        rows >= 256 && rows * dimension >= 262_144 && worker_count >= 4 && (requested == 0
            || requested >= 4) ==> workers == 4,
        rows >= 256 && rows * dimension >= 262_144 && 0 < requested <= 4 && requested
            <= worker_count ==> workers == requested,
        rows >= 256 && rows * dimension >= 262_144 && 0 < worker_count <= 4 && (requested == 0
            || requested >= worker_count) ==> workers == worker_count,
{
    assert(rows as nat * dimension as nat == rows * dimension);
}

/// Whether some part found a row.
pub open spec fn a_part_found(parts: Seq<PartitionScan>, row: ScanCandidate) -> bool {
    exists|p: int, i: int|
        0 <= p < parts.len() && 0 <= i < parts[p].candidates@.len() && #[trigger] parts[p].candidates@[i]
            == row
}

/// How many rows each part found.
pub open spec fn found_counts(parts: Seq<PartitionScan>) -> Seq<u64> {
    Seq::new(parts.len(), |p: int| parts[p].candidates@.len() as u64)
}

/// The values that each part read.
pub open spec fn dims_of_parts(parts: Seq<PartitionScan>) -> Seq<u64> {
    Seq::new(parts.len(), |p: int| parts[p].dims_touched)
}

/// The bytes that each part read.
pub open spec fn bytes_of_parts(parts: Seq<PartitionScan>) -> Seq<u64> {
    Seq::new(parts.len(), |p: int| parts[p].bytes_read)
}

proof fn lemma_parts_are_joined(parts: Seq<PartitionScan>, n: nat)
    requires
        n <= parts.len(),
    ensures
        forall|p: int, i: int|
            0 <= p < n && 0 <= i < parts[p].candidates@.len() ==> part_candidates(
                parts,
                n,
            ).contains(#[trigger] parts[p].candidates@[i]),
        forall|at: int|
            0 <= at < part_candidates(parts, n).len() ==> a_part_found(
                parts,
                #[trigger] part_candidates(parts, n)[at],
            ),
        part_dims(parts, n) == sum_of(dims_of_parts(parts).take(n as int)),
        part_bytes(parts, n) == sum_of(bytes_of_parts(parts).take(n as int)),
        part_candidates(parts, n).len() == sum_of(found_counts(parts).take(n as int)),
    decreases n,
{
    if n > 0 {
        let m = (n - 1) as nat;
        lemma_parts_are_joined(parts, m);
        let (earlier, all) = (part_candidates(parts, m), part_candidates(parts, n));
        let last = parts[n - 1].candidates@;
        assert forall|p: int, i: int|
            0 <= p < n && 0 <= i < parts[p].candidates@.len() implies all.contains(
            #[trigger] parts[p].candidates@[i],
        ) by {
            if p < m {
                assert(earlier.contains(parts[p].candidates@[i]));
                let at = choose|at: int|
                    0 <= at < earlier.len() && earlier[at] == parts[p].candidates@[i];
                assert(all[at] == earlier[at]);
            } else {
                assert(all[earlier.len() + i] == last[i]);
            }
        }
        assert forall|at: int| 0 <= at < all.len() implies a_part_found(
            parts,
            #[trigger] all[at],
        ) by {
            if at < earlier.len() {
                assert(all[at] == earlier[at]);
            } else {
                assert(all[at] == parts[n - 1].candidates@[at - earlier.len()]);
            }
        }
        assert(dims_of_parts(parts).take(n as int).drop_last() =~= dims_of_parts(parts).take(
            m as int,
        ));
        assert(bytes_of_parts(parts).take(n as int).drop_last() =~= bytes_of_parts(parts).take(
            m as int,
        ));
        assert(found_counts(parts).take(n as int).drop_last() =~= found_counts(parts).take(
            m as int,
        ));
        assert(parts[n - 1].candidates@.len() == parts[n - 1].candidates.len());
    }
}

/// The rows that are kept of what the parts found: the nearest `k` with ties, or all
/// rows where there are no more.
pub open spec fn keeps_nearest_of_parts(
    found: Seq<ScanCandidate>,
    parts: Seq<PartitionScan>,
    k: int,
) -> bool {
    let offered = sum_of(found_counts(parts));
    &&& offered <= k ==> found.len() == offered
    &&& offered > k ==> found.len() >= k
    &&& k == 0 ==> found.len() == 0
    &&& forall|i: int| 0 <= i < found.len() ==> a_part_found(parts, #[trigger] found[i])
    &&& forall|i: int, j: int|
        0 <= i < j < found.len() ==> !scanned_nearer(#[trigger] found[j], #[trigger] found[i])
    &&& forall|p: int, i: int|
        0 < k <= offered && 0 <= p < parts.len() && 0 <= i < parts[p].candidates@.len() ==> (
        found.contains(#[trigger] parts[p].candidates@[i])
            <==> parts[p].candidates@[i].score.order() >= found[k - 1].score.order())
}

/// A parted scan keeps the nearest of all rows that its parts found, never more than
/// there are rows to scan but for ties, and its work is the sum of theirs.
pub proof fn lemma_a_parted_scan_keeps_the_nearest(
    parts: &Vec<PartitionScan>,
    row_count: usize,
    workers: usize,
    k: usize,
    result: Result<ScanOutcome, ScanError>,
)
    requires
        call_ensures(merge_partitions, (parts, row_count, workers, k), result),
    ensures
        result is Err <==> sum_of(dims_of_parts(parts@)) > u64::MAX || sum_of(
            bytes_of_parts(parts@),
        ) > u64::MAX,
        result matches Ok(outcome) ==> {
            &&& keeps_nearest_of_parts(
                outcome.candidates@,
                parts@,
                if k <= row_count {
                    k as int
                } else {
                    row_count as int
                },
            )
            &&& outcome.stats.dims_touched == sum_of(dims_of_parts(parts@))
            &&& outcome.stats.bytes_read == sum_of(bytes_of_parts(parts@))
            &&& outcome.stats.threads_used == workers
            &&& outcome.worst_score is None
        },
{
    let all = part_candidates(parts@, parts@.len());
    lemma_parts_are_joined(parts@, parts@.len());
    assert(dims_of_parts(parts@).take(parts@.len() as int) =~= dims_of_parts(parts@));
    assert(bytes_of_parts(parts@).take(parts@.len() as int) =~= bytes_of_parts(parts@));
    assert(found_counts(parts@).take(parts@.len() as int) =~= found_counts(parts@));
    if let Ok(outcome) = result {
        let limit = if k <= row_count {
            k as nat
        } else {
            row_count as nat
        };
        let found = outcome.candidates@;
        lemma_a_scan_keeps_the_nearest_rows(all, limit);
        assert(found == best_with_ties(ranked(all), limit));
        assert forall|i: int| 0 <= i < found.len() implies a_part_found(
            parts@,
            #[trigger] found[i],
        ) by {
            assert(all.contains(found[i]));
            let at = choose|at: int| 0 <= at < all.len() && all[at] == found[i];
            assert(a_part_found(parts@, all[at]));
        }
    }
}

/// The failure of a slot of an exact scan, if it has one that a search reports as it is.
pub open spec fn failure_of_slot(slot: ExactResult) -> Option<QueryError> {
    match slot {
        None => Some(
            QueryError::Store(
                StoreError::Synchronization { component: "exact query result slot" },
            ),
        ),
        Some(Err(ExactScanError::Query(error))) => Some(error),
        _ => None,
    }
}

/// Whether a slot met a score that single precision cannot hold.
pub open spec fn met_wide_score(slot: ExactResult, row: usize, score: Double) -> bool {
    slot == Some(Err::<ScanOutcome, ExactScanError>(ExactScanError::Narrowing { row_id: row, score }))
}

/// Whether a slot met such a score of a row that comes no later than another row with
/// its score: the better score first, then the lower row.
pub open spec fn is_no_worse(
    slots: Seq<ExactResult>,
    row_id: usize,
    row: usize,
    score: Double,
) -> bool {
    exists|s: int, best: Double|
        0 <= s < slots.len() && #[trigger] met_wide_score(slots[s], row_id, best) && (best.order()
            > score.order() || (best.order() == score.order() && row_id <= row))
}

/// The rows that a slot found.
pub open spec fn rows_of_slot(slot: ExactResult) -> Seq<ScanCandidate> {
    match slot {
        Some(Ok(part)) => part.candidates@,
        _ => Seq::empty(),
    }
}

/// How many rows each slot found.
pub open spec fn slot_counts(slots: Seq<ExactResult>) -> Seq<u64> {
    Seq::new(slots.len(), |s: int| rows_of_slot(slots[s]).len() as u64)
}

/// The values that each slot read.
pub open spec fn slot_dims(slots: Seq<ExactResult>) -> Seq<u64> {
    Seq::new(
        slots.len(),
        |s: int|
            match slots[s] {
                Some(Ok(part)) => part.stats.dims_touched,
                _ => 0,
            },
    )
}

/// The bytes that each slot read.
pub open spec fn slot_bytes(slots: Seq<ExactResult>) -> Seq<u64> {
    Seq::new(
        slots.len(),
        |s: int|
            match slots[s] {
                Some(Ok(part)) => part.stats.bytes_read,
                _ => 0,
            },
    )
}

/// Whether some slot found a row.
pub open spec fn a_slot_found(slots: Seq<ExactResult>, row: ScanCandidate) -> bool {
    exists|s: int, i: int|
        0 <= s < slots.len() && 0 <= i < rows_of_slot(slots[s]).len() && #[trigger] rows_of_slot(
            slots[s],
        )[i] == row
}

/// The farthest row of a slot, where it names one.
pub open spec fn worst_of_slot(slot: ExactResult) -> Option<Score> {
    match slot {
        Some(Ok(part)) => part.worst_score,
        _ => None,
    }
}

proof fn lemma_slots_are_joined(slots: Seq<ExactResult>, n: nat)
    requires
        n <= slots.len(),
    ensures
        forall|s: int, i: int|
            0 <= s < n && 0 <= i < rows_of_slot(slots[s]).len() ==> exact_candidates(
                slots,
                n,
            ).contains(#[trigger] rows_of_slot(slots[s])[i]),
        forall|at: int|
            0 <= at < exact_candidates(slots, n).len() ==> a_slot_found(
                slots,
                #[trigger] exact_candidates(slots, n)[at],
            ),
        exact_dims(slots, n) == sum_of(slot_dims(slots).take(n as int)),
        exact_bytes(slots, n) == sum_of(slot_bytes(slots).take(n as int)),
        exact_candidates(slots, n).len() == sum_of(slot_counts(slots).take(n as int)),
        survey(slots, n).retained == sum_of(slot_counts(slots).take(n as int)),
    decreases n,
{
    if n > 0 {
        let m = (n - 1) as nat;
        lemma_slots_are_joined(slots, m);
        let (earlier, all) = (exact_candidates(slots, m), exact_candidates(slots, n));
        let last = rows_of_slot(slots[n - 1]);
        assert(all =~= earlier + last);
        assert forall|s: int, i: int|
            0 <= s < n && 0 <= i < rows_of_slot(slots[s]).len() implies all.contains(
            #[trigger] rows_of_slot(slots[s])[i],
        ) by {
            if s < m {
                assert(earlier.contains(rows_of_slot(slots[s])[i]));
                let at = choose|at: int|
                    0 <= at < earlier.len() && earlier[at] == rows_of_slot(slots[s])[i];
                assert(all[at] == earlier[at]);
            } else {
                assert(all[earlier.len() + i] == last[i]);
            }
        }
        assert forall|at: int| 0 <= at < all.len() implies a_slot_found(
            slots,
            #[trigger] all[at],
        ) by {
            if at < earlier.len() {
                assert(all[at] == earlier[at]);
            } else {
                assert(all[at] == rows_of_slot(slots[n - 1])[at - earlier.len()]);
            }
        }
        assert(slot_dims(slots).take(n as int).drop_last() =~= slot_dims(slots).take(m as int));
        assert(slot_bytes(slots).take(n as int).drop_last() =~= slot_bytes(slots).take(m as int));
        assert(slot_counts(slots).take(n as int).drop_last() =~= slot_counts(slots).take(
            m as int,
        ));
        if let Some(Ok(part)) = slots[n - 1] {
            assert(part.candidates@.len() == part.candidates.len());
        }
    }
}

proof fn lemma_the_survey_finds_the_first_failure(slots: Seq<ExactResult>, n: nat)
    requires
        n <= slots.len(),
    ensures
        match survey(slots, n).first_error {
            None => forall|s: int| 0 <= s < n ==> failure_of_slot(#[trigger] slots[s]) is None,
            Some(error) => exists|at: int|
                {
                    &&& 0 <= at < n
                    &&& failure_of_slot(#[trigger] slots[at]) == Some(error)
                    &&& forall|s: int|
                        0 <= s < at ==> failure_of_slot(#[trigger] slots[s]) is None
                },
        },
        match survey(slots, n).narrowing {
            None => forall|s: int, row: usize, score: Double|
                0 <= s < n ==> !#[trigger] met_wide_score(slots[s], row, score),
            Some(held) => {
                &&& exists|at: int|
                    0 <= at < n && #[trigger] met_wide_score(slots[at], held.0, held.1)
                &&& forall|s: int, row: usize, score: Double|
                    0 <= s < n && #[trigger] met_wide_score(slots[s], row, score)
                        ==> score.order() < held.1.order() || (score.order() == held.1.order()
                        && held.0 <= row)
            },
        },
    decreases n,
{
    if n > 0 {
        let m = (n - 1) as nat;
        lemma_the_survey_finds_the_first_failure(slots, m);
        let (earlier, all) = (survey(slots, m), survey(slots, n));
        if earlier.first_error is None && all.first_error is Some {
            assert(failure_of_slot(slots[n - 1]) == all.first_error);
        }
        if let Some(held) = all.narrowing {
            if all.narrowing != earlier.narrowing {
                assert(met_wide_score(slots[n - 1], held.0, held.1));
            } else {
                let at = choose|at: int|
                    0 <= at < m && #[trigger] met_wide_score(slots[at], held.0, held.1);
                assert(met_wide_score(slots[at], held.0, held.1));
            }
        }
    }
}

proof fn lemma_the_worst_is_the_farthest(slots: Seq<ExactResult>, n: nat)
    requires
        n <= slots.len(),
    ensures
        match exact_worst(slots, n) {
            None => forall|s: int| 0 <= s < n ==> worst_of_slot(#[trigger] slots[s]) is None,
            Some(worst) => {
                &&& exists|at: int|
                    0 <= at < n && worst_of_slot(#[trigger] slots[at]) == Some(worst)
                &&& forall|s: int|
                    0 <= s < n ==> (worst_of_slot(#[trigger] slots[s]) matches Some(other)
                        ==> other.order() >= worst.order())
            },
        },
    decreases n,
{
    if n > 0 {
        let m = (n - 1) as nat;
        lemma_the_worst_is_the_farthest(slots, m);
        let (earlier, all) = (exact_worst(slots, m), exact_worst(slots, n));
        if all is Some {
            if all == worst_of_slot(slots[n - 1]) {
                assert(worst_of_slot(slots[n - 1]) == all);
            } else {
                assert(all == earlier);
            }
        }
    }
}

/// An exact scan keeps the nearest of all rows that its slots found, the nearest first
/// and every row that ties with the last; its work is the sum of theirs, and its
/// farthest row the farthest of theirs.
pub proof fn lemma_an_exact_scan_keeps_the_nearest(
    slots: Vec<ExactResult>,
    k: usize,
    room: Result<(), StoreError>,
    result: Result<ScanOutcome, QueryError>,
)
    requires
        call_ensures(merge_exact, (slots, k, room), result),
        result is Ok,
    ensures
        ({
            let outcome = result->Ok_0;
            let found = outcome.candidates@;
            let offered = sum_of(slot_counts(slots@));
            &&& forall|s: int| 0 <= s < slots@.len() ==> ((#[trigger] slots@[s]) matches Some(Ok(_)))
            &&& offered <= k ==> found.len() == offered
            &&& offered > k ==> found.len() >= k
            &&& k == 0 ==> found.len() == 0
            &&& forall|i: int| 0 <= i < found.len() ==> a_slot_found(slots@, #[trigger] found[i])
            &&& forall|i: int, j: int|
                0 <= i < j < found.len() ==> !scanned_nearer(
                    #[trigger] found[j],
                    #[trigger] found[i],
                )
            &&& forall|s: int, i: int|
                0 < k <= offered && 0 <= s < slots@.len() && 0 <= i < rows_of_slot(
                    slots@[s],
                ).len() ==> (found.contains(#[trigger] rows_of_slot(slots@[s])[i])
                    <==> rows_of_slot(slots@[s])[i].score.order() >= found[k - 1].score.order())
            &&& outcome.stats.dims_touched == sum_of(slot_dims(slots@))
            &&& outcome.stats.bytes_read == sum_of(slot_bytes(slots@))
            &&& outcome.stats.threads_used == outcome.stats.worker_thread_ids@.len()
            &&& match outcome.worst_score {
                None => forall|s: int|
                    0 <= s < slots@.len() ==> worst_of_slot(#[trigger] slots@[s]) is None,
                Some(worst) => {
                    &&& exists|s: int|
                        0 <= s < slots@.len() && worst_of_slot(#[trigger] slots@[s]) == Some(worst)
                    &&& forall|s: int|
                        0 <= s < slots@.len() ==> (worst_of_slot(#[trigger] slots@[s]) matches Some(
                            other,
                        ) ==> other.order() >= worst.order())
                },
            }
        }),
{
    let outcome = result->Ok_0;
    let found = outcome.candidates@;
    let n = slots@.len();
    let all = exact_candidates(slots@, n);
    lemma_slots_are_joined(slots@, n);
    lemma_the_survey_finds_the_first_failure(slots@, n);
    lemma_the_worst_is_the_farthest(slots@, n);
    lemma_a_scan_keeps_the_nearest_rows(all, k as nat);
    assert(slot_dims(slots@).take(n as int) =~= slot_dims(slots@));
    assert(slot_bytes(slots@).take(n as int) =~= slot_bytes(slots@));
    assert(slot_counts(slots@).take(n as int) =~= slot_counts(slots@));
    assert forall|s: int| 0 <= s < n implies (#[trigger] slots@[s]) matches Some(Ok(_)) by {
        assert(failure_of_slot(slots@[s]) is None);
        if let Some(Err(ExactScanError::Narrowing { row_id, score })) = slots@[s] {
            assert(met_wide_score(slots@[s], row_id, score));
        }
    }
    assert forall|i: int| 0 <= i < found.len() implies a_slot_found(
        slots@,
        #[trigger] found[i],
    ) by {
        assert(all.contains(found[i]));
        let at = choose|at: int| 0 <= at < all.len() && all[at] == found[i];
        assert(a_slot_found(slots@, all[at]));
    }
}

/// What an exact scan fails with: the failure of the first slot that has one; where
/// none has, the row of the best score that single precision cannot hold; and only then
/// a want of room. The two checks on what can be counted aside, nothing else fails it.
pub proof fn lemma_an_exact_scan_reports_the_first_failure(
    slots: Vec<ExactResult>,
    k: usize,
    room: Result<(), StoreError>,
    result: Result<ScanOutcome, QueryError>,
)
    requires
        call_ensures(merge_exact, (slots, k, room), result),
        sum_of(slot_counts(slots@)) <= usize::MAX,
    ensures
        forall|at: int|
            {
                &&& 0 <= at < slots@.len()
                &&& failure_of_slot(#[trigger] slots@[at]) is Some
                &&& forall|s: int| 0 <= s < at ==> failure_of_slot(#[trigger] slots@[s]) is None
            } ==> result is Err && Some(result->Err_0) == failure_of_slot(slots@[at]),
        (forall|s: int| 0 <= s < slots@.len() ==> failure_of_slot(#[trigger] slots@[s]) is None)
            ==> {
            &&& forall|at: int, row: usize, score: Double|
                0 <= at < slots@.len() && #[trigger] met_wide_score(slots@[at], row, score) ==> {
                    result matches Err(QueryError::Scan(ScanError::NonFiniteScore { row_id }))
                        && is_no_worse(slots@, row_id, row, score)
                }
        },
        (forall|s: int| 0 <= s < slots@.len() ==> ((#[trigger] slots@[s]) matches Some(Ok(_)))) ==> {
            &&& room matches Err(error) ==> result == Err::<ScanOutcome, QueryError>(
                QueryError::Store(error),
            )
            &&& room is Ok && sum_of(slot_dims(slots@)) <= u64::MAX && sum_of(slot_bytes(slots@))
                <= u64::MAX ==> result is Ok
        },
{
    let n = slots@.len();
    lemma_slots_are_joined(slots@, n);
    lemma_the_survey_finds_the_first_failure(slots@, n);
    assert(slot_dims(slots@).take(n as int) =~= slot_dims(slots@));
    assert(slot_bytes(slots@).take(n as int) =~= slot_bytes(slots@));
    assert(slot_counts(slots@).take(n as int) =~= slot_counts(slots@));
    let found = survey(slots@, n);
    if found.first_error is Some {
        let first = choose|at: int|
            {
                &&& 0 <= at < n
                &&& failure_of_slot(#[trigger] slots@[at]) == found.first_error
                &&& forall|s: int| 0 <= s < at ==> failure_of_slot(#[trigger] slots@[s]) is None
            };
        assert(failure_of_slot(slots@[first]) is Some);
        assert forall|at: int|
            {
                &&& 0 <= at < n
                &&& failure_of_slot(#[trigger] slots@[at]) is Some
                &&& forall|s: int| 0 <= s < at ==> failure_of_slot(#[trigger] slots@[s]) is None
            } implies at == first by {
            if at < first {
                assert(failure_of_slot(slots@[at]) is None);
            } else if first < at {
                assert(failure_of_slot(slots@[first]) is None);
            }
        }
    } else if let Some(held) = found.narrowing {
        assert(result == Err::<ScanOutcome, QueryError>(
            QueryError::Scan(ScanError::NonFiniteScore { row_id: held.0 }),
        ));
        let s = choose|s: int| 0 <= s < n && #[trigger] met_wide_score(slots@[s], held.0, held.1);
        assert forall|at: int, row: usize, score: Double|
            0 <= at < slots@.len() && #[trigger] met_wide_score(
                slots@[at],
                row,
                score,
            ) implies is_no_worse(slots@, held.0, row, score) by {
            assert(met_wide_score(slots@[s], held.0, held.1));
        }
    }
}

/// The results of the slots become parts in slot order; the first slot without a part
/// fails the scan, with its own failure.
pub proof fn lemma_parts_come_from_their_slots(
    slots: Vec<Option<Result<PartitionScan, ScanError>>>,
    result: Result<Vec<PartitionScan>, QueryError>,
)
    requires
        call_ensures(gather_partitions, (slots,), result),
    ensures
        match result {
            Ok(parts) => {
                &&& parts@.len() == slots@.len()
                &&& forall|s: int|
                    0 <= s < slots@.len() ==> slots@[s] == Some(
                        Ok::<PartitionScan, ScanError>(#[trigger] parts@[s]),
                    )
            },
            Err(error) => exists|at: int|
                {
                    &&& 0 <= at < slots@.len()
                    &&& match #[trigger] slots@[at] {
                        None => error == QueryError::Store(
                            StoreError::Synchronization { component: "query result slot" },
                        ),
                        Some(Err(failure)) => error == QueryError::Scan(failure),
                        Some(Ok(_)) => false,
                    }
                    &&& forall|s: int|
                        0 <= s < at ==> ((#[trigger] slots@[s]) matches Some(Ok(_)))
                },
        },
{
    if let Err(error) = result {
        let at = choose|at: int|
            #[trigger] first_failed_slot(slots@, at) && slot_failure(
                slots@[at],
            ) == Some(error);
        assert(first_failed_slot(slots@, at));
        assert forall|s: int| 0 <= s < at implies (#[trigger] slots@[s]) matches Some(Ok(_)) by {
            assert(slot_failure(slots@[s]) is None);
        }
        assert(slots@[at] == slots@[at]);
    }
}

/// A finished scan returns the nearest rows of its slots: a stop comes first, a slot
/// without a part fails the scan, and otherwise every slot's rows are ranked together.
pub proof fn lemma_a_finished_scan_returns_the_nearest(
    cancellation: &QueryCancellation,
    flags: &StopFlags,
    slots: Vec<Option<Result<PartitionScan, ScanError>>>,
    row_count: usize,
    k: usize,
    result: Result<ScanOutcome, QueryError>,
)
    requires
        call_ensures(finish_scan, (cancellation, flags, slots, row_count, k), result),
    ensures
        stop_of(*cancellation, flags@) matches Some(stop) ==> result == Err::<
            ScanOutcome,
            QueryError,
        >(stop),
        result matches Ok(outcome) ==> {
            let parts = Seq::new(slots@.len(), |s: int| slots@[s]->0->Ok_0);
            &&& forall|s: int|
                0 <= s < slots@.len() ==> ((#[trigger] slots@[s]) matches Some(Ok(_)))
            &&& keeps_nearest_of_parts(
                outcome.candidates@,
                parts,
                if k <= row_count {
                    k as int
                } else {
                    row_count as int
                },
            )
            &&& outcome.stats.dims_touched == sum_of(dims_of_parts(parts))
            &&& outcome.stats.bytes_read == sum_of(bytes_of_parts(parts))
            &&& outcome.stats.threads_used == slots@.len()
        },
{
    if let Ok(outcome) = result {
        let found = outcome.candidates@;
        let limit = least(k as nat, row_count as nat);
        let parts = choose|parts: Seq<PartitionScan>| #[trigger]
            gathers(slots@, parts) && merges(
                parts,
                row_count as nat,
                slots@.len(),
                k as nat,
                result,
            );
        assert forall|s: int| 0 <= s < slots@.len() implies ((#[trigger] slots@[s]) matches Some(
            Ok(_),
        )) by {
            assert(slots@[s] == Some(Ok::<PartitionScan, ScanError>(parts[s])));
        }
        assert(parts =~= Seq::new(slots@.len(), |s: int| slots@[s]->0->Ok_0));
        let all = part_candidates(parts, parts.len());
        lemma_parts_are_joined(parts, parts.len());
        assert(dims_of_parts(parts).take(parts.len() as int) =~= dims_of_parts(parts));
        assert(bytes_of_parts(parts).take(parts.len() as int) =~= bytes_of_parts(parts));
        assert(found_counts(parts).take(parts.len() as int) =~= found_counts(parts));
        lemma_a_scan_keeps_the_nearest_rows(all, limit);
        assert forall|i: int| 0 <= i < found.len() implies a_part_found(
            parts,
            #[trigger] found[i],
        ) by {
            assert(all.contains(found[i]));
            let at = choose|at: int| 0 <= at < all.len() && all[at] == found[i];
            assert(a_part_found(parts, all[at]));
        }
    }
}

} // verus!
