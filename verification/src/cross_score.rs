//! Exact cross-scores that the rounds of one admission share.

use crate::accounting::Accounted;
use crate::accounting::Accounting;
use crate::accounting::AllocationComponent;
use crate::fusion::FusionError;
use crate::hybrid::is_overflow;
use crate::hybrid::is_refusal;
use crate::hybrid::is_scratch;
use crate::hybrid::overflow;
use crate::hybrid::refusal;
use crate::identity::document_place;
use crate::identity::find_ranked;
use crate::identity::is_lexical_invariant;
use crate::identity::lexical_invariant;
use crate::identity::relate_documents;
use crate::identity::relate_revisions;
use crate::identity::relate_rows;
use crate::identity::revision_place;
use crate::identity::row_place;
use crate::identity::PhysicalIdentity;
use crate::identity::Relation;
use crate::ids::EpochIdentity;
use crate::observations::saw_cache_bytes;
use crate::observations::HybridScoreObserver;
use crate::observations::ObservedScoring;
use crate::rank::before;
use crate::rank::is_ranked;
use crate::rank::lemma_permutation_keeps_members;
use crate::rank::lemma_ranked_is_permutation;
use crate::rank::lemma_ranked_is_ranked;
use crate::rank::rank_items;
use crate::rank::ranked;
use crate::rank::Ranked;
use vstd::prelude::*;

verus! {

/// How a cross-score was computed.
#[derive(Clone, Copy, Debug, PartialEq, Eq, Structural)]
pub enum CrossScorePolicy {
    SquaredL2F32,
    Bm25Beir,
}

/// What a cross-score belongs to.
#[derive(Clone, Copy, Debug, PartialEq, Eq, Structural)]
pub struct CrossScoreKey {
    pub identity: PhysicalIdentity,
    pub epoch: Option<EpochIdentity>,
    pub policy: CrossScorePolicy,
}

/// One cross-score by its encoding.
#[derive(Clone, Copy, Debug, PartialEq, Eq, Structural)]
pub struct CachedScore {
    pub key: CrossScoreKey,
    pub bits: u64,
}

/// Place of a policy behind a revision.
pub open spec fn policy_place(policy: CrossScorePolicy) -> int {
    match policy {
        CrossScorePolicy::SquaredL2F32 => 0,
        CrossScorePolicy::Bm25Beir => 1,
    }
}

impl Ranked for CachedScore {
    /// By row, document, revision and policy.
    open spec fn rank(self) -> (int, int, int) {
        (
            row_place(self.key.identity.row),
            document_place(self.key.identity.document),
            2 * revision_place(self.key.identity.document) + policy_place(self.key.policy),
        )
    }

    fn ranks_before(&self, other: &Self) -> (result: bool) {
        match relate_rows(self.key.identity.row, other.key.identity.row) {
            Relation::Before => true,
            Relation::After => false,
            Relation::Same => match relate_documents(
                self.key.identity.document,
                other.key.identity.document,
            ) {
                Relation::Before => true,
                Relation::After => false,
                Relation::Same => match relate_revisions(
                    self.key.identity.document,
                    other.key.identity.document,
                ) {
                    Relation::Before => true,
                    Relation::After => false,
                    Relation::Same => self.key.policy == CrossScorePolicy::SquaredL2F32
                        && other.key.policy == CrossScorePolicy::Bm25Beir,
                },
            },
        }
    }

    fn ties_with(&self, other: &Self) -> (result: bool) {
        relate_rows(self.key.identity.row, other.key.identity.row) == Relation::Same
    }
}

proof fn lemma_rank_identifies_key(a: CachedScore, b: CachedScore)
    requires
        a.key.epoch == b.key.epoch,
    ensures
        a.rank() == b.rank() <==> a.key == b.key,
{
}

/// The score of a key among entries.
pub open spec fn lookup(entries: Seq<CachedScore>, key: CrossScoreKey) -> Option<u64> {
    if exists|i: int| 0 <= i < entries.len() && (#[trigger] entries[i]).key == key {
        Some(entries[choose|i: int| 0 <= i < entries.len() && (#[trigger] entries[i]).key == key].bits)
    } else {
        None
    }
}

/// No key occurs twice.
pub open spec fn keys_are_distinct(entries: Seq<CachedScore>) -> bool {
    forall|i: int, j: int|
        0 <= i < j < entries.len() ==> (#[trigger] entries[i]).key != (#[trigger] entries[j]).key
}

/// Exact cross-scores of one pinned admission. A score that was inserted in a
/// round can be read from the end of that round on.
#[derive(Debug)]
pub struct CrossScoreCache {
    pub epoch: Option<EpochIdentity>,
    pub entries: Accounted<CachedScore>,
    pub sorted: usize,
}

impl CrossScoreCache {
    /// The scores that can be read.
    pub open spec fn finished(self) -> Seq<CachedScore> {
        self.entries.items@.take(self.sorted as int)
    }

    /// The scores that wait for the end of the round.
    pub open spec fn pending(self) -> Seq<CachedScore> {
        self.entries.items@.skip(self.sorted as int)
    }

    /// Readable scores are ranked and distinct, and every key is of this epoch.
    pub open spec fn well_formed(self) -> bool {
        &&& is_scratch(self.entries)
        &&& self.sorted <= self.entries.items@.len()
        &&& is_ranked(self.finished())
        &&& keys_are_distinct(self.finished())
        &&& forall|i: int|
            0 <= i < self.entries.items@.len() ==> (#[trigger] self.entries.items@[i]).key.epoch
                == self.epoch
    }

    /// The key of a score in this cache.
    pub open spec fn key_of(self, identity: PhysicalIdentity, policy: CrossScorePolicy) -> CrossScoreKey {
        CrossScoreKey { identity, epoch: self.epoch, policy }
    }

    /// An empty cache.
    pub fn new(epoch: Option<EpochIdentity>) -> (cache: CrossScoreCache)
        ensures
            cache.well_formed(),
            cache.epoch == epoch,
            cache.entries.items@.len() == 0,
            cache.entries.capacity == 0,
            cache.entries.bytes == 0,
            cache.sorted == 0,
    {
        CrossScoreCache {
            epoch,
            entries: Accounted::unaccounted_empty(AllocationComponent::Temporary),
            sorted: 0,
        }
    }

    /// The key of a score in this cache.
    pub fn key(&self, identity: PhysicalIdentity, policy: CrossScorePolicy) -> (key: CrossScoreKey)
        ensures
            key == self.key_of(identity, policy),
    {
        CrossScoreKey { identity, epoch: self.epoch, policy }
    }

    /// Reads a score of an earlier round.
    pub fn get(&self, key: CrossScoreKey) -> (score: Option<u64>)
        requires
            self.well_formed(),
            key.epoch == self.epoch,
        ensures
            score == lookup(self.finished(), key),
    {
        let probe = CachedScore { key, bits: 0 };
        let ghost finished = self.finished();
        match find_ranked(&self.entries.items, self.sorted, &probe) {
            Some(at) => {
                proof {
                    assert(finished[at as int] == self.entries.items@[at as int]);
                    lemma_rank_identifies_key(finished[at as int], probe);
                    let chosen = choose|i: int|
                        0 <= i < finished.len() && (#[trigger] finished[i]).key == key;
                    assert(finished[at as int].key == key);
                    assert(chosen == at);
                }
                Some(self.entries.items[at].bits)
            },
            None => {
                assert forall|i: int| 0 <= i < finished.len() implies (#[trigger] finished[i]).key
                    != key by {
                    assert(finished[i] == self.entries.items@[i]);
                    lemma_rank_identifies_key(finished[i], probe);
                }
                None
            },
        }
    }

    /// Whether a round starts from `start` and `totals`: from the cache as it is,
    /// or, where rounds are fresh, from an empty one whose charge was given back.
    pub open spec fn round_starts(
        self,
        accounting: Accounting,
        fresh: bool,
        start: CrossScoreCache,
        totals: Accounting,
    ) -> bool {
        if fresh {
            &&& start.epoch == self.epoch
            &&& start.sorted == 0
            &&& start.entries.items@.len() == 0
            &&& start.entries.capacity == 0
            &&& start.entries.bytes == 0
            &&& start.entries.component == AllocationComponent::Temporary
            &&& totals.budgets == accounting.budgets
            &&& totals.resident == accounting.resident - self.entries.bytes
            &&& totals.temporary == accounting.temporary - self.entries.bytes
        } else {
            start == self && totals == accounting
        }
    }

    /// Starts a round: a fresh one forgets every score and gives the charge for
    /// them back.
    pub fn start_round(&mut self, fresh: bool, accounting: &mut Accounting)
        requires
            old(self).well_formed(),
            old(self).entries.covered_by(*old(accounting)),
        ensures
            final(self).well_formed(),
            old(self).round_starts(*old(accounting), fresh, *final(self), *final(accounting)),
    {
        if fresh {
            let mut entries = Accounted::unaccounted_empty(AllocationComponent::Temporary);
            std::mem::swap(&mut entries, &mut self.entries);
            entries.release(accounting);
            self.sorted = 0;
        }
    }

    /// What an observer sees of a reservation: the bytes of both allocations,
    /// where the cache grew.
    pub open spec fn saw_reservation(
        self,
        seen: Option<ObservedScoring>,
        wanted: int,
        after: CrossScoreCache,
    ) -> Option<ObservedScoring> {
        if wanted > self.entries.capacity {
            saw_cache_bytes(
                seen,
                if self.entries.bytes + after.entries.bytes <= u64::MAX {
                    (self.entries.bytes + after.entries.bytes) as u64
                } else {
                    u64::MAX
                },
            )
        } else {
            seen
        }
    }

    /// Makes room for the scores of one round. The observer sees what both
    /// allocations hold while the cache grows.
    pub fn reserve_round(
        &mut self,
        additional: usize,
        accounting: &mut Accounting,
        observer: &mut HybridScoreObserver,
    ) -> (result: Result<(), FusionError>)
        requires
            old(self).well_formed(),
            old(self).entries.covered_by(*old(accounting)),
        ensures
            final(self).well_formed(),
            final(self).epoch == old(self).epoch,
            final(self).sorted == old(self).sorted,
            final(self).entries.items@ == old(self).entries.items@,
            final(self).entries.bytes >= old(self).entries.bytes,
            final(accounting).budgets == old(accounting).budgets,
            final(accounting).temporary - old(accounting).temporary == final(self).entries.bytes
                - old(self).entries.bytes,
            final(accounting).resident - old(accounting).resident == final(self).entries.bytes
                - old(self).entries.bytes,
            final(observer).fresh_rounds == old(observer).fresh_rounds,
            ({
                let wanted = old(self).entries.items@.len() + additional;
                if wanted > usize::MAX {
                    &&& result matches Err(error) && is_overflow(error)
                    &&& *final(self) == *old(self)
                    &&& final(observer)@ == old(observer)@
                } else {
                    match old(self).entries.growth(*old(accounting), wanted as usize) {
                        Err(refused) => {
                            &&& result matches Err(error) && is_refusal(error, refused)
                            &&& *final(self) == *old(self)
                            &&& final(observer)@ == old(observer)@
                        },
                        Ok(_) => {
                            &&& result is Ok
                            &&& final(observer)@ == old(self).saw_reservation(
                                old(observer)@,
                                wanted as int,
                                *final(self),
                            )
                            &&& final(self).entries.capacity == if wanted
                                <= old(self).entries.capacity {
                                old(self).entries.capacity
                            } else {
                                wanted as usize
                            }
                        },
                    }
                }
            }),
    {
        let capacity: usize = match self.entries.items.len().checked_add(additional) {
            Some(sum) => sum,
            None => {
                return Err(overflow());
            },
        };
        let ghost before = self.entries;
        let held_capacity: usize = self.entries.capacity();
        let held_bytes: u64 = self.entries.resident_bytes();
        match self.entries.try_reserve_total(accounting, capacity) {
            Ok(_) => {
                if capacity > held_capacity {
                    observer.cache_bytes(
                        held_bytes.saturating_add(self.entries.resident_bytes()),
                    );
                }
                proof {
                    vstd::arithmetic::mul::lemma_mul_inequality(
                        before.capacity as int,
                        self.entries.capacity as int,
                        vstd::layout::size_of::<CachedScore>() as int,
                    );
                }
                assert(self.finished() == old(self).finished());
                Ok(())
            },
            Err(error) => Err(refusal(error)),
        }
    }

    /// Adds a score that can be read from the end of the round on.
    pub fn insert(&mut self, key: CrossScoreKey, bits: u64)
        requires
            old(self).well_formed(),
            key.epoch == old(self).epoch,
            old(self).entries.items@.len() < old(self).entries.capacity,
        ensures
            final(self).well_formed(),
            final(self).epoch == old(self).epoch,
            final(self).sorted == old(self).sorted,
            final(self).finished() == old(self).finished(),
            final(self).entries.capacity == old(self).entries.capacity,
            final(self).entries.bytes == old(self).entries.bytes,
            final(self).entries.items@ == old(self).entries.items@.push(CachedScore { key, bits }),
    {
        self.entries.items.push(CachedScore { key, bits });
        assert(self.finished() == old(self).finished());
    }

    /// Ends a round: every score can be read from now on. A key that occurs
    /// twice is refused.
    pub fn finish_round(&mut self) -> (result: Result<(), FusionError>)
        requires
            old(self).well_formed(),
        ensures
            final(self).epoch == old(self).epoch,
            final(self).entries.capacity == old(self).entries.capacity,
            final(self).entries.bytes == old(self).entries.bytes,
            final(self).entries.component == old(self).entries.component,
            final(self).entries.items@ == ranked(old(self).entries.items@),
            result is Ok <==> keys_are_distinct(old(self).entries.items@),
            match result {
                Ok(_) => {
                    &&& final(self).well_formed()
                    &&& final(self).finished() == final(self).entries.items@
                },
                Err(error) => is_lexical_invariant(
                    error,
                    "hybrid cross-score cache contains a duplicate physical row/policy"@,
                ),
            },
    {
        let ghost before_items = self.entries.items@;
        rank_items(&mut self.entries.items);
        let ghost sorted = self.entries.items@;
        proof {
            lemma_ranked_is_permutation(before_items);
            lemma_ranked_is_ranked(before_items);
            lemma_permutation_keeps_members(before_items, sorted);
            assert forall|i: int| 0 <= i < sorted.len() implies (#[trigger] sorted[i]).key.epoch
                == self.epoch by {
                assert(sorted.contains(sorted[i]));
                assert(before_items.contains(sorted[i]));
                let j = choose|j: int| 0 <= j < before_items.len() && before_items[j] == sorted[i];
                assert(before_items[j].key.epoch == self.epoch);
            }
        }
        if holds_repeat(&self.entries.items, Ghost(self.epoch)) {
            proof {
                if keys_are_distinct(before_items) {
                    lemma_distinct_keys_of_permutation(before_items, sorted);
                }
            }
            return Err(
                lexical_invariant(
                    "hybrid cross-score cache contains a duplicate physical row/policy",
                ),
            );
        }
        self.sorted = self.entries.items.len();
        proof {
            lemma_distinct_keys_of_permutation(sorted, before_items);
            assert(self.finished() == sorted);
        }
        Ok(())
    }
}

fn holds_repeat(items: &Vec<CachedScore>, Ghost(epoch): Ghost<Option<EpochIdentity>>) -> (result:
    bool)
    requires
        is_ranked(items@),
        forall|i: int| 0 <= i < items@.len() ==> (#[trigger] items@[i]).key.epoch == epoch,
    ensures
        result == !keys_are_distinct(items@),
{
    let mut at: usize = 1;
    while at < items.len()
        invariant
            1 <= at,
            is_ranked(items@),
            forall|i: int| 0 <= i < items@.len() ==> (#[trigger] items@[i]).key.epoch == epoch,
            forall|i: int, j: int|
                0 <= i < j < at && j < items@.len() ==> (#[trigger] items@[i]).key != (
                #[trigger] items@[j]).key,
        decreases items.len() - at,
    {
        if items[at - 1].key == items[at].key {
            assert(items@[at - 1].key == items@[at as int].key);
            return true;
        }
        assert forall|i: int| 0 <= i < at implies (#[trigger] items@[i]).key != items@[at as int].key by {
            lemma_rank_identifies_key(items@[i], items@[at as int]);
            lemma_rank_identifies_key(items@[at - 1], items@[at as int]);
            if i < at - 1 {
                assert(!before(items@[at - 1].rank(), items@[i].rank()));
            }
            assert(!before(items@[at as int].rank(), items@[at - 1].rank()));
        }
        at = at + 1;
    }
    false
}

proof fn lemma_distinct_keys_of_permutation(a: Seq<CachedScore>, b: Seq<CachedScore>)
    requires
        a.to_multiset() == b.to_multiset(),
        keys_are_distinct(a),
    ensures
        keys_are_distinct(b),
{
    broadcast use vstd::seq_lib::group_to_multiset_ensures;

    lemma_permutation_keeps_members(a, b);
    assert(a.no_duplicates()) by {
        assert forall|i: int, j: int| 0 <= i < a.len() && 0 <= j < a.len() && i != j implies a[i]
            != a[j] by {
            if i < j {
                assert(a[i].key != a[j].key);
            } else {
                assert(a[j].key != a[i].key);
            }
        }
    }
    assert(b.no_duplicates()) by {
        a.lemma_multiset_has_no_duplicates();
        b.lemma_multiset_has_no_duplicates_conv();
    }
    assert forall|i: int, j: int| 0 <= i < j < b.len() implies (#[trigger] b[i]).key != (
    #[trigger] b[j]).key by {
        assert(b.contains(b[i]));
        assert(b.contains(b[j]));
        let m = choose|m: int| 0 <= m < a.len() && a[m] == b[i];
        let n = choose|n: int| 0 <= n < a.len() && a[n] == b[j];
        assert(a.contains(b[i]));
        assert(a.contains(b[j]));
        assert(b[i] != b[j]);
        assert(m != n);
        if m < n {
            assert(a[m].key != a[n].key);
        } else {
            assert(a[n].key != a[m].key);
        }
    }
}

/// A score that was inserted in a round is read back after the round, and
/// scores of earlier rounds stay readable.
pub proof fn lemma_round_scores_are_read_back(
    entries: Seq<CachedScore>,
    finished: Seq<CachedScore>,
    at: int,
)
    requires
        0 <= at < entries.len(),
        keys_are_distinct(entries),
        finished == ranked(entries),
    ensures
        lookup(finished, entries[at].key) == Some(entries[at].bits),
{
    lemma_ranked_is_permutation(entries);
    lemma_permutation_keeps_members(entries, finished);
    lemma_distinct_keys_of_permutation(entries, finished);
    assert(entries.contains(entries[at]));
    let i = choose|i: int| 0 <= i < finished.len() && finished[i] == entries[at];
    assert(finished.contains(entries[at]));
    assert(finished[i].key == entries[at].key);
    let chosen = choose|j: int|
        0 <= j < finished.len() && (#[trigger] finished[j]).key == entries[at].key;
    if chosen != i {
        if chosen < i {
            assert(finished[chosen].key != finished[i].key);
        } else {
            assert(finished[i].key != finished[chosen].key);
        }
    }
}

} // verus!
