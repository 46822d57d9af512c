//! Fault controllers that watch sealed segments.

use crate::fault::StorageFaultController;
use crate::fault::StorageReceiptObserved;
use crate::fault::StorageReceiptSite;
use crate::ids::SegmentId;
use crate::snapshot::SegmentMeta;
use crate::text::same_str;
use vstd::prelude::*;

verus! {

/// One registered controller: a store directory, a segment and the controller's
/// number.
#[derive(Clone, Debug, PartialEq, Eq)]
pub struct SegmentControllerEntry {
    pub directory: String,
    pub segment: SegmentId,
    pub controller: usize,
}

/// Controllers that watch sealed segments, in order of registration.
#[derive(Debug)]
pub struct SegmentControllerRegistry {
    pub entries: Vec<SegmentControllerEntry>,
}

/// Whether a controller number is among the live ones.
pub open spec fn is_live(live: Seq<bool>, controller: usize) -> bool {
    controller < live.len() && live[controller as int]
}

impl SegmentControllerRegistry {
    /// An empty registry.
    pub fn new() -> (registry: Self)
        ensures
            registry.entries@.len() == 0,
    {
        SegmentControllerRegistry { entries: Vec::new() }
    }

    fn retain_live(&mut self, live: &Vec<bool>)
        ensures
            final(self).entries@ == old(self).entries@.filter(
                |entry: SegmentControllerEntry| is_live(live@, entry.controller),
            ),
    {
        let ghost keep = |entry: SegmentControllerEntry| is_live(live@, entry.controller);
        let ghost before = self.entries@;
        let mut at: usize = 0;
        let ghost mut seen: int = 0;
        assert(before.take(0).filter(keep) == Seq::<SegmentControllerEntry>::empty()) by {
            reveal(Seq::filter);
        }
        assert(self.entries@.take(0) + before.skip(0) == self.entries@);
        while at < self.entries.len()
            invariant
                keep == |entry: SegmentControllerEntry| is_live(live@, entry.controller),
                0 <= seen <= before.len(),
                at <= self.entries@.len(),
                self.entries@.take(at as int) == before.take(seen).filter(keep),
                self.entries@.skip(at as int) == before.skip(seen),
            decreases self.entries.len() - at,
        {
            let ghost entries = self.entries@;
            assert(entries.skip(at as int).len() == before.skip(seen).len());
            assert(entries.skip(at as int)[0] == before.skip(seen)[0]);
            assert(entries[at as int] == before[seen]);
            assert(before.take(seen + 1).drop_last() == before.take(seen));
            assert(before.take(seen + 1).filter(keep) == if keep(before[seen]) {
                before.take(seen).filter(keep).push(before[seen])
            } else {
                before.take(seen).filter(keep)
            }) by {
                reveal(Seq::filter);
            }
            let number = self.entries[at].controller;
            if number < live.len() && live[number] {
                assert(keep(before[seen]));
                assert(entries.take(at + 1) == entries.take(at as int).push(entries[at as int]));
                at = at + 1;
                assert(entries.skip(at as int) == before.skip(seen + 1)) by {
                    assert(entries.skip(at as int) == entries.skip(at - 1).skip(1));
                    assert(before.skip(seen + 1) == before.skip(seen).skip(1));
                }
            } else {
                assert(!keep(before[seen]));
                let _ = self.entries.remove(at);
                assert(self.entries@.take(at as int) == entries.take(at as int));
                assert(self.entries@.skip(at as int) == before.skip(seen + 1)) by {
                    assert(self.entries@.skip(at as int) == entries.skip(at as int).skip(1));
                    assert(before.skip(seen + 1) == before.skip(seen).skip(1));
                }
            }
            proof {
                seen = seen + 1;
            }
        }
        assert(seen == before.len()) by {
            assert(self.entries@.skip(at as int).len() == 0);
            assert(before.skip(seen).len() == 0);
        }
        assert(before.take(seen) == before);
        assert(self.entries@.take(at as int) == self.entries@);
    }

    /// Drops the entries of dead controllers and registers one more.
    pub fn register_storage_segment_controller(
        &mut self,
        directory: &str,
        segment: SegmentId,
        controller: usize,
        live: &Vec<bool>,
    )
        ensures
            final(self).entries@.len() > 0,
            final(self).entries@.drop_last() == old(self).entries@.filter(
                |entry: SegmentControllerEntry| is_live(live@, entry.controller),
            ),
            final(self).entries@.last().directory@ == directory@,
            final(self).entries@.last().segment == segment,
            final(self).entries@.last().controller == controller,
    {
        self.retain_live(live);
        let ghost kept = self.entries@;
        self.entries.push(
            SegmentControllerEntry { directory: directory.to_owned(), segment, controller },
        );
        assert(self.entries@.drop_last() == kept);
    }

    /// Whether an entry watches this segment of this directory.
    pub open spec fn watches(
        entry: SegmentControllerEntry,
        directory: Seq<char>,
        segment: SegmentId,
    ) -> bool {
        entry.directory@ == directory && entry.segment == segment
    }

    /// The numbers of the controllers whose entries watch this segment.
    pub open spec fn watching(
        entries: Seq<SegmentControllerEntry>,
        directory: Seq<char>,
        segment: SegmentId,
    ) -> Seq<usize>
        decreases entries.len(),
    {
        if entries.len() == 0 {
            Seq::empty()
        } else {
            let before = Self::watching(entries.drop_last(), directory, segment);
            if Self::watches(entries.last(), directory, segment) {
                before.push(entries.last().controller)
            } else {
                before
            }
        }
    }

    /// Drops the entries of dead controllers and lists, in order of
    /// registration, the controllers that watch this segment.
    pub fn matching(&mut self, directory: &str, segment: SegmentId, live: &Vec<bool>) -> (numbers:
        Vec<usize>)
        ensures
            final(self).entries@ == old(self).entries@.filter(
                |entry: SegmentControllerEntry| is_live(live@, entry.controller),
            ),
            numbers@ == Self::watching(final(self).entries@, directory@, segment),
    {
        self.retain_live(live);
        let mut numbers: Vec<usize> = Vec::new();
        let mut at: usize = 0;
        while at < self.entries.len()
            invariant
                at <= self.entries@.len(),
                numbers@ == Self::watching(self.entries@.take(at as int), directory@, segment),
            decreases self.entries.len() - at,
        {
            let ghost prefix = self.entries@.take(at + 1);
            assert(prefix.drop_last() == self.entries@.take(at as int));
            assert(prefix.last() == self.entries@[at as int]);
            if self.entries[at].segment == segment && same_str(
                self.entries[at].directory.as_str(),
                directory,
            ) {
                numbers.push(self.entries[at].controller);
            }
            at = at + 1;
        }
        assert(self.entries@.take(at as int) == self.entries@);
        numbers
    }

    /// What registering every segment of a snapshot leads to.
    pub open spec fn registers(
        before: Seq<SegmentControllerEntry>,
        after: Seq<SegmentControllerEntry>,
        directory: Seq<char>,
        segments: Seq<SegmentMeta>,
        controller: usize,
        live: Seq<bool>,
    ) -> bool {
        if segments.len() == 0 {
            after == before
        } else {
            let kept = before.filter(
                |entry: SegmentControllerEntry| is_live(live, entry.controller),
            );
            &&& after.len() == kept.len() + segments.len()
            &&& after.take(kept.len() as int) == kept
            &&& forall|i: int|
                0 <= i < segments.len() ==> Self::watches(
                    #[trigger] after[kept.len() + i],
                    directory,
                    segments[i].id,
                ) && after[kept.len() + i].controller == controller
        }
    }

    /// Registers a live controller for every segment of a snapshot, in order.
    pub fn register_snapshot(
        &mut self,
        directory: &str,
        segments: &Vec<SegmentMeta>,
        controller: usize,
        live: &Vec<bool>,
    )
        requires
            is_live(live@, controller),
        ensures
            Self::registers(
                old(self).entries@,
                final(self).entries@,
                directory@,
                segments@,
                controller,
                live@,
            ),
    {
        let ghost keep = |entry: SegmentControllerEntry| is_live(live@, entry.controller);
        let ghost before = self.entries@;
        let ghost kept = before.filter(keep);
        let mut at: usize = 0;
        while at < segments.len()
            invariant
                at <= segments@.len(),
                keep == |entry: SegmentControllerEntry| is_live(live@, entry.controller),
                kept == before.filter(keep),
                is_live(live@, controller),
                Self::registers(
                    before,
                    self.entries@,
                    directory@,
                    segments@.take(at as int),
                    controller,
                    live@,
                ),
            decreases segments.len() - at,
        {
            let ghost earlier = self.entries@;
            self.register_storage_segment_controller(directory, segments[at].id, controller, live);
            proof {
                assert(self.entries@ == self.entries@.drop_last().push(self.entries@.last()));
                if at > 0 {
                    assert forall|i: int| 0 <= i < earlier.len() implies keep(
                        #[trigger] earlier[i],
                    ) by {
                        if i < kept.len() {
                            before.lemma_filter_pred(keep, i);
                            assert(earlier.take(kept.len() as int)[i] == kept[i]);
                        } else {
                            assert(earlier[kept.len() + (i - kept.len())] == earlier[i]);
                        }
                    }
                    lemma_filter_keeps_all(earlier, keep);
                }
                let now = segments@.take(at + 1);
                let after = self.entries@;
                assert(after.take(kept.len() as int) == kept);
                assert forall|i: int| 0 <= i < now.len() implies Self::watches(
                    #[trigger] after[kept.len() + i],
                    directory@,
                    now[i].id,
                ) && after[kept.len() + i].controller == controller by {
                    if i < at {
                        assert(after[kept.len() + i] == earlier[kept.len() + i]);
                        assert(segments@.take(at as int)[i] == now[i]);
                    }
                }
            }
            at = at + 1;
        }
        assert(segments@.take(at as int) == segments@);
    }

    /// What a checksum mismatch leaves of one controller.
    pub open spec fn after_mismatch(
        watching: bool,
        before: StorageFaultController,
        after: StorageFaultController,
        segment_file: Seq<char>,
        segment: SegmentId,
        region_kind: u16,
        chunk: u32,
        expected: u64,
        actual: u64,
    ) -> bool {
        if watching && !before.spec_consumed() && before.spec_fault() is CorruptSegmentRegion {
            exists|observed: StorageReceiptObserved|
                #![trigger StorageFaultController::emitted(before, after, StorageReceiptSite::SegmentReadRegionChecksum, observed)]
                StorageFaultController::emitted(
                    before,
                    after,
                    StorageReceiptSite::SegmentReadRegionChecksum,
                    observed,
                ) && StorageFaultController::checksum_observed(
                    observed,
                    segment_file,
                    segment,
                    region_kind,
                    chunk,
                    expected,
                    actual,
                )
        } else {
            after == before
        }
    }

    /// Records a region checksum mismatch at every live controller that watches
    /// the segment and is armed for it.
    pub fn record_storage_segment_checksum_fault(
        &mut self,
        controllers: &mut Vec<StorageFaultController>,
        live: &Vec<bool>,
        directory: &str,
        segment_file: &str,
        segment: SegmentId,
        region_kind: u16,
        chunk: u32,
        expected: u64,
        actual: u64,
    )
        ensures
            final(self).entries@ == old(self).entries@.filter(
                |entry: SegmentControllerEntry| is_live(live@, entry.controller),
            ),
            final(controllers)@.len() == old(controllers)@.len(),
            forall|c: int|
                0 <= c < old(controllers)@.len() ==> Self::after_mismatch(
                    Self::watching(final(self).entries@, directory@, segment).contains(c as usize),
                    #[trigger] old(controllers)@[c],
                    final(controllers)@[c],
                    segment_file@,
                    segment,
                    region_kind,
                    chunk,
                    expected,
                    actual,
                ),
    {
        let numbers = self.matching(directory, segment, live);
        let ghost before = controllers@;
        let mut at: usize = 0;
        while at < numbers.len()
            invariant
                at <= numbers@.len(),
                controllers@.len() == before.len(),
                forall|c: int|
                    0 <= c < before.len() ==> Self::after_mismatch(
                        numbers@.take(at as int).contains(c as usize),
                        #[trigger] before[c],
                        controllers@[c],
                        segment_file@,
                        segment,
                        region_kind,
                        chunk,
                        expected,
                        actual,
                    ),
            decreases numbers.len() - at,
        {
            let number = numbers[at];
            let ghost earlier = controllers@;
            if number < controllers.len() {
                controllers[number].record_storage_segment_checksum_fault(
                    segment_file,
                    segment,
                    region_kind,
                    chunk,
                    expected,
                    actual,
                );
            }
            proof {
                let now = numbers@.take(at + 1);
                let earlier_numbers = numbers@.take(at as int);
                assert(now == earlier_numbers.push(number));
                assert forall|c: int| 0 <= c < before.len() implies Self::after_mismatch(
                    now.contains(c as usize),
                    #[trigger] before[c],
                    controllers@[c],
                    segment_file@,
                    segment,
                    region_kind,
                    chunk,
                    expected,
                    actual,
                ) by {
                    if c == number {
                        assert(now[at as int] == c as usize);
                    } else {
                        assert(controllers@[c] == earlier[c]);
                        assert(now.contains(c as usize) == earlier_numbers.contains(c as usize)) by {
                            if now.contains(c as usize) {
                                let j = choose|j: int| 0 <= j < now.len() && now[j] == c as usize;
                                assert(earlier_numbers[j] == c as usize);
                            }
                            if earlier_numbers.contains(c as usize) {
                                let j = choose|j: int|
                                    0 <= j < earlier_numbers.len() && earlier_numbers[j] == c as usize;
                                assert(now[j] == c as usize);
                            }
                        }
                    }
                }
            }
            at = at + 1;
        }
        assert(numbers@.take(at as int) == numbers@);
    }
}

proof fn lemma_filter_keeps_all(
    entries: Seq<SegmentControllerEntry>,
    keep: spec_fn(SegmentControllerEntry) -> bool,
)
    requires
        forall|i: int| 0 <= i < entries.len() ==> keep(#[trigger] entries[i]),
    ensures
        entries.filter(keep) == entries,
    decreases entries.len(),
{
    reveal(Seq::filter);
    if entries.len() > 0 {
        let rest = entries.drop_last();
        assert forall|i: int| 0 <= i < rest.len() implies keep(#[trigger] rest[i]) by {
            assert(rest[i] == entries[i]);
        }
        lemma_filter_keeps_all(rest, keep);
        assert(rest.push(entries.last()) == entries);
    }
}

} // verus!
