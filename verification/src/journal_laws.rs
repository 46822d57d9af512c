//! What is read off the log, the watch list and the acknowledgments of a store.

use crate::acknowledgment::storage_manifest_abort_wire_receipt;
use crate::error::IoError;
use crate::fault::StorageFaultController;
use crate::fault::StorageFaultReceipt;
use crate::fault::StorageReceiptObserved;
use crate::fault::StorageReceiptSite;
use crate::ids::SegmentId;
use crate::snapshot::SegmentMeta;
use crate::wal_facts::append_facts_spec;
use crate::wal_facts::fold_facts;
use crate::wal_facts::le_value;
use crate::wal_facts::record_len;
use crate::wal_facts::record_seq;
use crate::wal_facts::storage_wal_append_facts;
use crate::wal_facts::storage_wal_vectored_facts;
use crate::wal_facts::walk;
use crate::wal_facts::AppendFacts;
use crate::wal_facts::AppendFault;
use crate::wal_facts::WalFraming;
use crate::watch::SegmentControllerEntry;
use crate::watch::SegmentControllerRegistry;
use vstd::prelude::*;

verus! {

/// Whether the controller of an entry is still alive.
pub open spec fn entry_lives(live: Seq<bool>, entry: SegmentControllerEntry) -> bool {
    entry.controller < live.len() && live[entry.controller as int]
}

/// Whether a live entry watches a segment of a directory for a controller.
pub open spec fn watched_by(
    entry: SegmentControllerEntry,
    live: Seq<bool>,
    directory: Seq<char>,
    segment: SegmentId,
    controller: usize,
) -> bool {
    &&& entry_lives(live, entry)
    &&& entry.directory@ == directory
    &&& entry.segment == segment
    &&& entry.controller == controller
}

proof fn lemma_watching_members(
    entries: Seq<SegmentControllerEntry>,
    directory: Seq<char>,
    segment: SegmentId,
    controller: usize,
)
    ensures
        SegmentControllerRegistry::watching(entries, directory, segment).contains(controller)
            <==> exists|i: int|
            0 <= i < entries.len() && (#[trigger] entries[i]).directory@ == directory
                && entries[i].segment == segment && entries[i].controller == controller,
    decreases entries.len(),
{
    if entries.len() > 0 {
        let rest = entries.drop_last();
        lemma_watching_members(rest, directory, segment, controller);
        let before = SegmentControllerRegistry::watching(rest, directory, segment);
        let all = SegmentControllerRegistry::watching(entries, directory, segment);
        if before.contains(controller) {
            let at = choose|at: int| 0 <= at < before.len() && before[at] == controller;
            assert(all[at] == controller);
            let i = choose|i: int|
                0 <= i < rest.len() && (#[trigger] rest[i]).directory@ == directory
                    && rest[i].segment == segment && rest[i].controller == controller;
            assert(entries[i] == rest[i]);
        }
        let last = entries[entries.len() - 1];
        if last.directory@ == directory && last.segment == segment && last.controller
            == controller {
            assert(all[all.len() - 1] == controller);
        }
        if all.contains(controller) && !before.contains(controller) {
            let at = choose|at: int| 0 <= at < all.len() && all[at] == controller;
            assert(at == before.len());
            assert(entries[entries.len() - 1].controller == controller);
        }
        if exists|i: int|
            0 <= i < entries.len() && (#[trigger] entries[i]).directory@ == directory
                && entries[i].segment == segment && entries[i].controller == controller {
            let i = choose|i: int|
                0 <= i < entries.len() && (#[trigger] entries[i]).directory@ == directory
                    && entries[i].segment == segment && entries[i].controller == controller;
            if i < rest.len() {
                assert(rest[i] == entries[i]);
            }
        }
    }
}

proof fn lemma_live_entries_stay(
    before: Seq<SegmentControllerEntry>,
    live: Seq<bool>,
    entry: SegmentControllerEntry,
)
    ensures
        before.filter(
            |e: SegmentControllerEntry| crate::watch::is_live(live, e.controller),
        ).contains(entry) <==> before.contains(entry) && entry_lives(live, entry),
{
    let alive = |e: SegmentControllerEntry| crate::watch::is_live(live, e.controller);
    let kept = before.filter(alive);
    if kept.contains(entry) {
        before.lemma_filter_contains_rev(alive, entry);
        let at = choose|at: int| 0 <= at < kept.len() && kept[at] == entry;
        before.lemma_filter_pred(alive, at);
    }
    if before.contains(entry) && entry_lives(live, entry) {
        let at = choose|at: int| 0 <= at < before.len() && before[at] == entry;
        before.lemma_filter_contains(alive, at);
    }
}

/// The controllers that are named for a segment are exactly the live ones that watch it
/// in that directory.
pub proof fn lemma_the_watchers_of_a_segment_are_named(
    registry: &mut SegmentControllerRegistry,
    directory: &str,
    segment: SegmentId,
    live: &Vec<bool>,
    numbers: Vec<usize>,
    controller: usize,
)
    requires
        call_ensures(
            SegmentControllerRegistry::matching,
            (registry, directory, segment, live),
            numbers,
        ),
    ensures
        numbers@.contains(controller) <==> exists|i: int|
            0 <= i < old(registry).entries@.len() && watched_by(
                #[trigger] old(registry).entries@[i],
                live@,
                directory@,
                segment,
                controller,
            ),
        forall|entry: SegmentControllerEntry| #[trigger]
            final(registry).entries@.contains(entry) <==> old(registry).entries@.contains(entry)
                && entry_lives(live@, entry),
{
    let (before, after) = (old(registry).entries@, final(registry).entries@);
    lemma_watching_members(after, directory@, segment, controller);
    assert forall|entry: SegmentControllerEntry| #[trigger] after.contains(entry)
        <==> before.contains(entry) && entry_lives(live@, entry) by {
        lemma_live_entries_stay(before, live@, entry);
    }
    if numbers@.contains(controller) {
        let i = choose|i: int|
            0 <= i < after.len() && (#[trigger] after[i]).directory@ == directory@
                && after[i].segment == segment && after[i].controller == controller;
        assert(after.contains(after[i]));
        let at = choose|at: int| 0 <= at < before.len() && before[at] == after[i];
        assert(watched_by(before[at], live@, directory@, segment, controller));
    }
    if exists|i: int|
        0 <= i < before.len() && watched_by(
            #[trigger] before[i],
            live@,
            directory@,
            segment,
            controller,
        ) {
        let i = choose|i: int|
            0 <= i < before.len() && watched_by(
                #[trigger] before[i],
                live@,
                directory@,
                segment,
                controller,
            );
        assert(before.contains(before[i]));
        assert(after.contains(before[i]));
        let at = choose|at: int| 0 <= at < after.len() && after[at] == before[i];
        assert(after[at].controller == controller);
    }
}

/// A registered snapshot has each of its segments watched by its controller, and every
/// live entry from before stays.
pub proof fn lemma_a_registered_snapshot_is_watched(
    registry: &mut SegmentControllerRegistry,
    directory: &str,
    segments: &Vec<SegmentMeta>,
    controller: usize,
    live: &Vec<bool>,
    at: int,
)
    requires
        call_ensures(
            SegmentControllerRegistry::register_snapshot,
            (registry, directory, segments, controller, live),
            (),
        ),
        0 <= at < segments@.len(),
    ensures
        exists|i: int|
            0 <= i < final(registry).entries@.len() && (#[trigger] final(
                registry).entries@[i]).directory@ == directory@ && final(registry).entries@[i].segment
                == segments@[at].id && final(registry).entries@[i].controller == controller,
        forall|entry: SegmentControllerEntry|
            old(registry).entries@.contains(entry) && entry_lives(live@, entry)
                ==> #[trigger] final(registry).entries@.contains(entry),
        forall|entry: SegmentControllerEntry|
            old(registry).entries@.contains(entry) && !entry_lives(live@, entry)
                && entry.controller != controller
                ==> !#[trigger] final(registry).entries@.contains(entry),
{
    let (before, after) = (old(registry).entries@, final(registry).entries@);
    let kept = before.filter(
        |e: SegmentControllerEntry| crate::watch::is_live(live@, e.controller),
    );
    assert(SegmentControllerRegistry::watches(
        after[kept.len() + at],
        directory@,
        segments@[at].id,
    ));
    assert forall|entry: SegmentControllerEntry|
        before.contains(entry) && entry_lives(live@, entry) implies #[trigger] after.contains(
        entry,
    ) by {
        lemma_live_entries_stay(before, live@, entry);
        let i = choose|i: int| 0 <= i < kept.len() && kept[i] == entry;
        assert(after.take(kept.len() as int)[i] == entry);
        assert(after[i] == entry);
    }
    assert forall|entry: SegmentControllerEntry|
        before.contains(entry) && !entry_lives(live@, entry) && entry.controller
            != controller implies !#[trigger] after.contains(entry) by {
        lemma_live_entries_stay(before, live@, entry);
        if after.contains(entry) {
            let i = choose|i: int| 0 <= i < after.len() && after[i] == entry;
            if i < kept.len() {
                assert(after.take(kept.len() as int)[i] == kept[i]);
                assert(kept.contains(entry));
            } else {
                let j = i - kept.len();
                assert(after[kept.len() + j].controller == controller);
            }
        }
    }
}

/// A checksum mismatch reaches the controllers that watch the segment and no other: one
/// that does not watch it, or has its receipt, stays as it was.
pub proof fn lemma_a_mismatch_reaches_its_watchers_only(
    registry: &mut SegmentControllerRegistry,
    controllers: &mut Vec<StorageFaultController>,
    live: &Vec<bool>,
    directory: &str,
    segment_file: &str,
    segment: SegmentId,
    region_kind: u16,
    chunk: u32,
    expected: u64,
    actual: u64,
    c: int,
)
    requires
        call_ensures(
            SegmentControllerRegistry::record_storage_segment_checksum_fault,
            (
                registry,
                controllers,
                live,
                directory,
                segment_file,
                segment,
                region_kind,
                chunk,
                expected,
                actual,
            ),
            (),
        ),
        0 <= c < old(controllers)@.len(),
    ensures
        ({
            let (before, after) = (old(controllers)@[c], final(controllers)@[c]);
            let watches = exists|i: int|
                0 <= i < old(registry).entries@.len() && watched_by(
                    #[trigger] old(registry).entries@[i],
                    live@,
                    directory@,
                    segment,
                    c as usize,
                );
            &&& final(controllers)@.len() == old(controllers)@.len()
            &&& !watches || before.spec_consumed() ==> after == before
            &&& watches && !before.spec_consumed() && before.spec_fault() is CorruptSegmentRegion
                ==> {
                &&& after.spec_consumed()
                &&& after.spec_receipt() matches Some(receipt)
                &&& receipt.site == StorageReceiptSite::SegmentReadRegionChecksum
                &&& receipt.cardinality == 1
                &&& receipt.observed matches StorageReceiptObserved::SegmentChecksum {
                    artifact,
                    segment: id,
                    region_kind: kind,
                    chunk: at,
                    expected_checksum,
                    actual_checksum,
                }
                &&& artifact@ == segment_file@ && id == segment && kind == region_kind && at
                    == chunk && expected_checksum == expected && actual_checksum == actual
            }
        }),
{
    let (before, after) = (old(registry).entries@, final(registry).entries@);
    assert(old(controllers)@.len() == old(controllers).len());
    lemma_watching_members(after, directory@, segment, c as usize);
    assert forall|entry: SegmentControllerEntry| #[trigger] after.contains(entry)
        <==> before.contains(entry) && entry_lives(live@, entry) by {
        lemma_live_entries_stay(before, live@, entry);
    }
    if exists|i: int|
        0 <= i < before.len() && watched_by(
            #[trigger] before[i],
            live@,
            directory@,
            segment,
            c as usize,
        ) {
        let i = choose|i: int|
            0 <= i < before.len() && watched_by(
                #[trigger] before[i],
                live@,
                directory@,
                segment,
                c as usize,
            );
        assert(before.contains(before[i]));
        assert(after.contains(before[i]));
        let at = choose|at: int| 0 <= at < after.len() && after[at] == before[i];
        assert(after[at].controller == c);
    }
    if SegmentControllerRegistry::watching(after, directory@, segment).contains(c as usize) {
        let i = choose|i: int|
            0 <= i < after.len() && (#[trigger] after[i]).directory@ == directory@
                && after[i].segment == segment && after[i].controller == c;
        assert(after.contains(after[i]));
        let at = choose|at: int| 0 <= at < before.len() && before[at] == after[i];
        assert(watched_by(before[at], live@, directory@, segment, c as usize));
    }
}

/// The number that four bytes spell, the lowest first.
pub open spec fn four_bytes(bytes: Seq<u8>, at: int) -> int {
    bytes[at] + 256 * bytes[at + 1] + 65_536 * bytes[at + 2] + 16_777_216 * bytes[at + 3]
}

/// The number that eight bytes spell, the lowest first.
pub open spec fn eight_bytes(bytes: Seq<u8>, at: int) -> int {
    four_bytes(bytes, at) + 4_294_967_296 * four_bytes(bytes, at + 4)
}

proof fn lemma_four_bytes_are_little_endian(bytes: Seq<u8>, at: int)
    requires
        0 <= at,
        at + 4 <= bytes.len(),
    ensures
        le_value(bytes.subrange(at, at + 4)) == four_bytes(bytes, at),
{
    let s = bytes.subrange(at, at + 4);
    reveal_with_fuel(le_value, 5);
    assert(s.skip(1).skip(1) =~= s.skip(2));
    assert(s.skip(2).skip(1) =~= s.skip(3));
    assert(s.skip(3).skip(1) =~= s.skip(4));
    assert(s.skip(4).len() == 0);
}

proof fn lemma_eight_bytes_are_little_endian(bytes: Seq<u8>, at: int)
    requires
        0 <= at,
        at + 8 <= bytes.len(),
    ensures
        le_value(bytes.subrange(at, at + 8)) == eight_bytes(bytes, at),
        0 <= eight_bytes(bytes, at) <= u64::MAX,
{
    let s = bytes.subrange(at, at + 8);
    assert(s.skip(1).skip(1) =~= s.skip(2));
    assert(s.skip(2).skip(1) =~= s.skip(3));
    assert(s.skip(3).skip(1) =~= s.skip(4));
    assert(s.skip(4) =~= bytes.subrange(at + 4, at + 8));
    lemma_four_bytes_are_little_endian(bytes, at + 4);
    assert(le_value(s.skip(3)) == s[3] + 256 * le_value(s.skip(4)));
    assert(le_value(s.skip(2)) == s[2] + 256 * le_value(s.skip(3)));
    assert(le_value(s.skip(1)) == s[1] + 256 * le_value(s.skip(2)));
    assert(le_value(s) == s[0] + 256 * le_value(s.skip(1)));
}

/// Whether whole records stand one behind the other, from a place to the end: each is a
/// head of fourteen bytes, a body as long as the head says, and a checksum of eight.
pub open spec fn holds_records(bytes: Seq<u8>, starts: Seq<int>, from: int) -> bool {
    &&& starts.len() > 0
    &&& starts[0] == from
    &&& forall|i: int|
        0 <= i < starts.len() ==> 0 <= #[trigger] starts[i] && starts[i] + 14 <= bytes.len()
    &&& forall|i: int|
        0 <= i < starts.len() ==> (#[trigger] starts[i]) + 14 + four_bytes(bytes, starts[i]) + 8
            == if i + 1 < starts.len() {
            starts[i + 1]
        } else {
            bytes.len() as int
        }
}

proof fn lemma_a_walk_reads_the_records(
    bytes: Seq<u8>,
    starts: Seq<int>,
    from: int,
    encoded: int,
    first: Option<u64>,
    last: u64,
)
    requires
        holds_records(bytes, starts, from),
        bytes.len() <= usize::MAX,
        encoded >= 0,
        encoded + bytes.len() - from <= u64::MAX,
    ensures
        walk(bytes, from, encoded, first, last) == Ok::<Option<AppendFacts>, AppendFault>(
            Some(
                AppendFacts {
                    encoded_len: (encoded + bytes.len() - from) as u64,
                    first_seq: match first {
                        Some(earlier) => earlier,
                        None => eight_bytes(bytes, from + 4) as u64,
                    },
                    last_seq: eight_bytes(bytes, starts.last() + 4) as u64,
                },
            ),
        ),
    decreases starts.len(),
{
    reveal_with_fuel(walk, 2);
    lemma_four_bytes_are_little_endian(bytes, from);
    lemma_eight_bytes_are_little_endian(bytes, from + 4);
    let len = 14 + four_bytes(bytes, from) + 8;
    assert(record_len(bytes, from) == len);
    assert(record_seq(bytes, from) == eight_bytes(bytes, from + 4));
    let seq = record_seq(bytes, from);
    let earliest = Some(
        match first {
            Some(earlier) => earlier,
            None => seq,
        },
    );
    if starts.len() == 1 {
        assert(from + len == bytes.len());
    } else {
        let rest = starts.skip(1);
        assert(starts[0] + 14 + four_bytes(bytes, starts[0]) + 8 == starts[1]);
        assert(starts[1] + 14 <= bytes.len());
        assert forall|i: int| 0 <= i < rest.len() implies (#[trigger] rest[i]) + 14 + four_bytes(
            bytes,
            rest[i],
        ) + 8 == if i + 1 < rest.len() {
            rest[i + 1]
        } else {
            bytes.len() as int
        } by {
            assert(rest[i] == starts[i + 1]);
        }
        lemma_a_walk_reads_the_records(
            bytes,
            rest,
            from + len,
            encoded + len,
            earliest,
            seq,
        );
        assert(rest.last() == starts.last());
    }
}

/// What is reported of an append that is whole records behind an optional log header:
/// all bytes behind the header, the sequence number of the first record and that of the
/// last.
pub proof fn lemma_an_append_reports_its_records(
    framing: &WalFraming,
    bytes: &[u8],
    starts: Seq<int>,
    result: Result<Option<AppendFacts>, AppendFault>,
)
    requires
        call_ensures(storage_wal_append_facts, (framing, bytes), result),
        ({
            let headed = framing.magic@.len() == 8 && bytes@.len() >= 10 && bytes@.take(8)
                == framing.magic@ && bytes@[8] + 256 * bytes@[9] == framing.family;
            holds_records(
                bytes@,
                starts,
                if headed {
                    framing.header_len as int
                } else {
                    0
                },
            )
        }),
    ensures
        result matches Ok(Some(facts)) && {
            &&& facts.encoded_len == bytes@.len() - starts[0]
            &&& facts.first_seq == eight_bytes(bytes@, starts[0] + 4)
            &&& facts.last_seq == eight_bytes(bytes@, starts.last() + 4)
        },
{
    if bytes@.len() >= 10 {
        let s = bytes@.subrange(8, 10);
        reveal_with_fuel(le_value, 3);
        assert(s.skip(1).skip(1).len() == 0);
    }
    assert(bytes@.len() == bytes.len());
    let last = starts[starts.len() - 1];
    lemma_eight_bytes_are_little_endian(bytes@, last + 4);
    lemma_eight_bytes_are_little_endian(bytes@, starts[0] + 4);
    lemma_a_walk_reads_the_records(bytes@, starts, starts[0], 0, None, 0);
}

/// What a vectored append reports against what its buffers report one by one: the sum of
/// their lengths, the first number of the first buffer that has records and the last
/// number of the last such buffer; a torn buffer fails it.
pub proof fn lemma_a_vectored_append_joins_its_buffers(
    framing: &WalFraming,
    buffers: &Vec<Vec<u8>>,
    result: Result<Option<AppendFacts>, AppendFault>,
)
    requires
        call_ensures(storage_wal_vectored_facts, (framing, buffers), result),
    ensures
        joins_buffers(*framing, buffers@, result),
{
    lemma_buffers_are_joined(*framing, buffers@);
}

/// The facts of one buffer, where it has records.
pub open spec fn facts_of(framing: WalFraming, buffer: Vec<u8>) -> Option<AppendFacts> {
    match append_facts_spec(framing, buffer@) {
        Ok(facts) => facts,
        Err(_) => None,
    }
}

/// The length of the records of one buffer.
pub open spec fn length_of(framing: WalFraming, buffer: Vec<u8>) -> int {
    match facts_of(framing, buffer) {
        Some(facts) => facts.encoded_len as int,
        None => 0,
    }
}

/// The length of the records of some buffers.
pub open spec fn lengths_of(framing: WalFraming, buffers: Seq<Vec<u8>>) -> int
    decreases buffers.len(),
{
    if buffers.len() == 0 {
        0
    } else {
        lengths_of(framing, buffers.drop_last()) + length_of(framing, buffers.last())
    }
}

/// Whether facts join those of some buffers.
pub open spec fn joins_buffers(
    framing: WalFraming,
    buffers: Seq<Vec<u8>>,
    result: Result<Option<AppendFacts>, AppendFault>,
) -> bool {
    match result {
        Ok(None) => forall|i: int|
            0 <= i < buffers.len() ==> append_facts_spec(framing, (#[trigger] buffers[i])@)
                == Ok::<Option<AppendFacts>, AppendFault>(None),
        Ok(Some(facts)) => {
            &&& forall|i: int|
                0 <= i < buffers.len() ==> append_facts_spec(framing, (#[trigger] buffers[i])@)
                    is Ok
            &&& facts.encoded_len == lengths_of(framing, buffers)
            &&& exists|i: int|
                {
                    &&& 0 <= i < buffers.len()
                    &&& facts_of(framing, #[trigger] buffers[i]) is Some
                    &&& facts.first_seq == facts_of(framing, buffers[i])->0.first_seq
                    &&& forall|j: int|
                        0 <= j < i ==> facts_of(framing, #[trigger] buffers[j]) is None
                }
            &&& exists|i: int|
                {
                    &&& 0 <= i < buffers.len()
                    &&& facts_of(framing, #[trigger] buffers[i]) is Some
                    &&& facts.last_seq == facts_of(framing, buffers[i])->0.last_seq
                    &&& forall|j: int|
                        i < j < buffers.len() ==> facts_of(framing, #[trigger] buffers[j]) is None
                }
        },
        Err(fault) => (exists|i: int|
            0 <= i < buffers.len() && append_facts_spec(framing, (#[trigger] buffers[i])@) == Err::<
                Option<AppendFacts>,
                AppendFault,
            >(fault)) || lengths_of(framing, buffers) > u64::MAX,
    }
}

proof fn lemma_lengths_are_not_negative(framing: WalFraming, buffers: Seq<Vec<u8>>)
    ensures
        lengths_of(framing, buffers) >= 0,
        buffers.len() > 0 ==> lengths_of(framing, buffers.drop_last()) <= lengths_of(
            framing,
            buffers,
        ),
    decreases buffers.len(),
{
    if buffers.len() > 0 {
        lemma_lengths_are_not_negative(framing, buffers.drop_last());
    }
}

proof fn lemma_buffers_are_joined(framing: WalFraming, buffers: Seq<Vec<u8>>)
    ensures
        joins_buffers(framing, buffers, fold_facts(framing, buffers)),
        fold_facts(framing, buffers) == Ok::<Option<AppendFacts>, AppendFault>(None)
            ==> lengths_of(framing, buffers) == 0,
    decreases buffers.len(),
{
    if buffers.len() > 0 {
        let rest = buffers.drop_last();
        let n = buffers.len() - 1;
        lemma_buffers_are_joined(framing, rest);
        lemma_lengths_are_not_negative(framing, buffers);
        assert(forall|i: int| 0 <= i < n ==> rest[i] == #[trigger] buffers[i]);
        let before = fold_facts(framing, rest);
        let all = fold_facts(framing, buffers);
        let own = append_facts_spec(framing, buffers[n]@);
        if before is Err {
            if exists|i: int|
                0 <= i < rest.len() && append_facts_spec(framing, (#[trigger] rest[i])@) == Err::<
                    Option<AppendFacts>,
                    AppendFault,
                >(before->Err_0) {
                let i = choose|i: int|
                    0 <= i < rest.len() && append_facts_spec(framing, (#[trigger] rest[i])@) == Err::<
                        Option<AppendFacts>,
                        AppendFault,
                    >(before->Err_0);
                assert(buffers[i] == rest[i]);
            }
        } else if own is Err {
            assert(append_facts_spec(framing, buffers[n]@) == own);
        } else {
            if let Ok(Some(earlier)) = before {
                let a = choose|i: int|
                    {
                        &&& 0 <= i < rest.len()
                        &&& facts_of(framing, #[trigger] rest[i]) is Some
                        &&& earlier.first_seq == facts_of(framing, rest[i])->0.first_seq
                        &&& forall|j: int|
                            0 <= j < i ==> facts_of(framing, #[trigger] rest[j]) is None
                    };
                let b = choose|i: int|
                    {
                        &&& 0 <= i < rest.len()
                        &&& facts_of(framing, #[trigger] rest[i]) is Some
                        &&& earlier.last_seq == facts_of(framing, rest[i])->0.last_seq
                        &&& forall|j: int|
                            i < j < rest.len() ==> facts_of(framing, #[trigger] rest[j]) is None
                    };
                assert(facts_of(framing, buffers[a]) is Some);
                assert(facts_of(framing, buffers[b]) is Some);
            }
            assert(facts_of(framing, buffers[n]) == own->Ok_0);
        }
    }
}

/// Decoding the line that a publisher writes gives back the operation, the side of the
/// rename and one single event, for every receipt of a publication whose segment is
/// final.
pub proof fn lemma_a_line_is_read_back(
    receipt: &StorageFaultReceipt,
    renamed: bool,
    line: Option<String>,
    text: &str,
    result: Result<StorageFaultReceipt, String>,
)
    requires
        call_ensures(storage_manifest_abort_wire_receipt, (receipt,), line),
        line matches Some(written) && text@ == written@,
        call_ensures(
            StorageFaultReceipt::from_manifest_abort_acknowledgment,
            (text,),
            result,
        ),
        receipt.operation@ == "publication"@,
        receipt.cardinality == 1,
        receipt.plan.artifact@ == "manifest.ze"@,
        receipt.plan.offset is None && receipt.plan.segment is None && receipt.plan.region_kind
            is None && receipt.plan.chunk is None,
        renamed ==> receipt.fault@ == "manifest-post-rename-crash"@ && receipt.site
            == StorageReceiptSite::ManifestCommitAfterRename,
        !renamed ==> receipt.fault@ == "manifest-pre-rename-crash"@ && receipt.site
            == StorageReceiptSite::ManifestCommitBeforeRename,
        StorageFaultController::rename_observed(receipt.observed, renamed, true),
    ensures
        result matches Ok(read) && {
            &&& read.operation@ == receipt.operation@
            &&& read.fault@ == receipt.fault@
            &&& read.site == receipt.site
            &&& read.plan.op_index == receipt.plan.op_index
            &&& read.plan.artifact@ == receipt.plan.artifact@
            &&& read.cardinality == 1
            &&& StorageFaultController::rename_observed(read.observed, renamed, true)
        },
{
    crate::acknowledgment::lemma_acknowledgment_round_trip(
        *receipt,
        receipt.plan.op_index,
        renamed,
    );
}

/// A scheduled error behind an append reports that append as it was, and comes once.
pub proof fn lemma_an_append_fault_reports_its_append(
    controller: &mut StorageFaultController,
    path: &str,
    facts: AppendFacts,
    result: Result<(), IoError>,
)
    requires
        call_ensures(StorageFaultController::after_append, (controller, path, facts), result),
    ensures
        old(controller).spec_consumed() ==> result is Ok,
        result is Ok ==> *final(controller) == *old(controller),
        result is Err ==> {
            &&& final(controller).spec_consumed()
            &&& final(controller).spec_receipt() matches Some(receipt)
            &&& receipt.observed matches StorageReceiptObserved::WalAppend {
                encoded_len,
                first_seq,
                last_seq,
                ..
            }
            &&& encoded_len == facts.encoded_len && first_seq == facts.first_seq && last_seq
                == facts.last_seq
        },
{
}

} // verus!
