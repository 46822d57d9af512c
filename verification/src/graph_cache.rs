//! Reusable per-segment traversal state: what is validated and discovered once,
//! and the pool of scratches that queries check out.

use crate::accounting::Accounting;
use crate::accounting::AllocationComponent;
use crate::control::QueryCancellation;
use crate::control::StopFlags;
use crate::error::Geometry;
use crate::error::GraphSearchError;
use crate::error::ScanError;
use crate::error::StoreError;
use crate::score::Double;
use crate::search::GraphCacheError;
use vstd::prelude::*;

verus! {

/// Entry rows of a graph.
#[derive(Clone, Copy, Debug, PartialEq, Eq, Structural)]
pub struct GraphEntries {
    pub first: u32,
    pub second: u32,
    pub third: u32,
    pub fourth: u32,
}

/// Bounds on the norms of a segment's rows.
#[derive(Clone, Copy, Debug, PartialEq, Eq, Structural)]
pub struct NormRange {
    pub minimum: Double,
    pub maximum: Double,
}

/// State of one segment's traversals.
#[derive(Debug)]
pub struct SegmentGraphSearchCache {
    /// The graph was validated.
    pub graph: bool,
    pub entries: Option<GraphEntries>,
    pub norm_range: Option<NormRange>,
    /// Bytes of each scratch that waits to be used again.
    pub available: Vec<u64>,
    pub checked_out: usize,
}

/// What preparing a shared bound found.
#[derive(Clone, Copy, Debug, PartialEq, Eq, Structural)]
pub struct SharedGraphPreparation {
    /// The graph was validated by this query.
    pub graph_validated: bool,
    /// The entry rows were discovered by this query.
    pub entry_seed_discovered: bool,
    pub norm_range: NormRange,
}

/// A scratch that a query has checked out.
#[derive(Clone, Copy, Debug, PartialEq, Eq, Structural)]
pub struct GraphScratchLease {
    pub bytes: u64,
    pub entries: GraphEntries,
    pub entry_seed_discovered: bool,
}

/// Whether a scratch can be checked out now.
#[derive(Clone, Copy, Debug, PartialEq, Eq, Structural)]
pub enum CheckoutStep {
    Ready,
    /// Wait for a scratch to come back, then check again.
    Wait,
}

/// How a new scratch was allocated.
#[derive(Clone, Debug, PartialEq, Eq)]
pub enum ScratchAllocation {
    /// The size could not be computed.
    NoSize(GraphSearchError),
    /// The scratch could not be made.
    Failed { requested: u64, error: GraphSearchError },
    Made { requested: u64, actual: u64 },
}

/// What a stopped query's check is reported as in a traversal.
pub open spec fn graph_stop(result: Result<(), ScanError>) -> Result<(), GraphSearchError> {
    match result {
        Ok(_) => Ok(()),
        Err(ScanError::Cancelled { partial }) => Err(GraphSearchError::Cancelled { partial }),
        Err(ScanError::Timeout { partial }) => Err(GraphSearchError::Timeout { partial }),
        Err(ScanError::ReadCancelled { partial }) => Err(
            GraphSearchError::ReadCancelled { partial },
        ),
        Err(error) => Err(GraphSearchError::Scan(error)),
    }
}

/// Checks whether a traversal has to stop at `now`.
pub fn check_cancellation(cancellation: &QueryCancellation, flags: &mut StopFlags, now: u128) -> (result:
    Result<(), GraphSearchError>)
    requires
        cancellation.control.on_board(old(flags)@),
    ensures
        cancellation.control.on_board(final(flags)@),
        final(flags)@ == cancellation.control.looked(old(flags)@, now),
        result == graph_stop(cancellation.checked(final(flags)@)),
{
    match cancellation.check_graph(flags, now) {
        Ok(_) => Ok(()),
        Err(ScanError::Cancelled { partial }) => Err(GraphSearchError::Cancelled { partial }),
        Err(ScanError::Timeout { partial }) => Err(GraphSearchError::Timeout { partial }),
        Err(ScanError::ReadCancelled { partial }) => Err(
            GraphSearchError::ReadCancelled { partial },
        ),
        Err(error) => Err(GraphSearchError::Scan(error)),
    }
}

impl SegmentGraphSearchCache {
    /// Number of scratches, checked out or not.
    pub open spec fn scratches(self) -> nat {
        self.available@.len() + self.checked_out as nat
    }

    /// The waiting scratches without the one that came back last.
    pub open spec fn waiting(self) -> Seq<u64> {
        if self.available@.len() > 0 {
            self.available@.drop_last()
        } else {
            self.available@
        }
    }

    /// One scratch went out: the one that came back last, or one in its place,
    /// or one more.
    pub open spec fn lends(self, after: SegmentGraphSearchCache) -> bool {
        &&& after.available@ == self.waiting()
        &&& after.checked_out == self.checked_out + 1
    }

    /// One scratch came back.
    pub open spec fn regains(self, after: SegmentGraphSearchCache, lease: GraphScratchLease) -> bool {
        &&& after.available@ == self.available@.push(lease.bytes)
        &&& after.checked_out == self.checked_out - 1
        &&& after.graph == self.graph
        &&& after.entries == self.entries
        &&& after.norm_range == self.norm_range
    }

    /// A cache that knows nothing.
    pub fn new() -> (cache: SegmentGraphSearchCache)
        ensures
            !cache.graph,
            cache.entries is None,
            cache.norm_range is None,
            cache.available@ == Seq::<u64>::empty(),
            cache.checked_out == 0,
    {
        SegmentGraphSearchCache {
            graph: false,
            entries: None,
            norm_range: None,
            available: Vec::new(),
            checked_out: 0,
        }
    }

    /// Binds the graph: it is validated once. `bound` is how binding or
    /// validating it went.
    pub fn bind_graph(&mut self, bound: Result<(), StoreError>) -> (result: Result<
        bool,
        GraphCacheError,
    >)
        ensures
            match bound {
                Err(error) => result == Err::<bool, GraphCacheError>(GraphCacheError::Store(error))
                    && *final(self) == *old(self),
                Ok(_) => result == Ok::<bool, GraphCacheError>(!old(self).graph) && *final(self)
                    == (SegmentGraphSearchCache { graph: true, ..*old(self) }),
            },
    {
        match bound {
            Err(error) => Err(GraphCacheError::Store(error)),
            Ok(_) => {
                let validated = !self.graph;
                self.graph = true;
                Ok(validated)
            },
        }
    }

    /// Prepares a shared bound: the graph is validated, its entry rows are
    /// discovered and its norms are walked once each. The arguments are how each
    /// went, where it had to be done; what succeeded is kept even where a later
    /// part fails.
    pub fn prepare_shared(
        &mut self,
        bound: Result<(), StoreError>,
        discovered: Result<GraphEntries, GraphSearchError>,
        walked: Result<NormRange, GraphSearchError>,
    ) -> (result: Result<SharedGraphPreparation, GraphCacheError>)
        ensures
            match bound {
                Err(error) => {
                    &&& result == Err::<SharedGraphPreparation, GraphCacheError>(
                        GraphCacheError::Store(error),
                    )
                    &&& *final(self) == *old(self)
                },
                Ok(_) => if old(self).entries is None && discovered is Err {
                    &&& result == Err::<SharedGraphPreparation, GraphCacheError>(
                        GraphCacheError::Search(discovered->Err_0),
                    )
                    &&& *final(self) == (SegmentGraphSearchCache { graph: true, ..*old(self) })
                } else {
                    let entries = match old(self).entries {
                        Some(known) => Some(known),
                        None => Some(discovered->Ok_0),
                    };
                    if old(self).norm_range is None && walked is Err {
                        &&& result == Err::<SharedGraphPreparation, GraphCacheError>(
                            GraphCacheError::Search(walked->Err_0),
                        )
                        &&& *final(self) == (SegmentGraphSearchCache {
                            graph: true,
                            entries,
                            ..*old(self)
                        })
                    } else {
                        let range = match old(self).norm_range {
                            Some(known) => known,
                            None => walked->Ok_0,
                        };
                        &&& result == Ok::<SharedGraphPreparation, GraphCacheError>(
                            SharedGraphPreparation {
                                graph_validated: !old(self).graph,
                                entry_seed_discovered: old(self).entries is None,
                                norm_range: range,
                            },
                        )
                        &&& *final(self) == (SegmentGraphSearchCache {
                            graph: true,
                            entries,
                            norm_range: Some(range),
                            ..*old(self)
                        })
                    }
                },
            },
    {
        let graph_validated = self.bind_graph(bound)?;
        let entry_seed_discovered = self.entries.is_none();
        if entry_seed_discovered {
            match discovered {
                Ok(entries) => {
                    self.entries = Some(entries);
                },
                Err(error) => {
                    return Err(GraphCacheError::Search(error));
                },
            }
        }
        let norm_range = match self.norm_range {
            Some(known) => known,
            None => match walked {
                Ok(range) => {
                    self.norm_range = Some(range);
                    range
                },
                Err(error) => {
                    return Err(GraphCacheError::Search(error));
                },
            },
        };
        Ok(SharedGraphPreparation { graph_validated, entry_seed_discovered, norm_range })
    }

    /// Decides whether a scratch can be checked out: the stop check comes
    /// first, then one that waits or one more within `capacity`.
    pub fn checkout_step(
        &self,
        capacity: usize,
        cancellation: &QueryCancellation,
        flags: &mut StopFlags,
        now: u128,
    ) -> (result: Result<CheckoutStep, GraphCacheError>)
        requires
            cancellation.control.on_board(old(flags)@),
        ensures
            cancellation.control.on_board(final(flags)@),
            capacity == 0 ==> {
                &&& final(flags)@ == old(flags)@
                &&& result == Err::<CheckoutStep, GraphCacheError>(
                    GraphCacheError::Search(
                        GraphSearchError::Geometry(Geometry::ScratchPoolCapacityZero),
                    ),
                )
            },
            capacity > 0 ==> {
                &&& final(flags)@ == cancellation.control.looked(old(flags)@, now)
                &&& result == match graph_stop(cancellation.checked(final(flags)@)) {
                    Err(error) => Err(GraphCacheError::Search(error)),
                    Ok(_) => Ok(
                        if self.available@.len() > 0 || self.checked_out < capacity {
                            CheckoutStep::Ready
                        } else {
                            CheckoutStep::Wait
                        },
                    ),
                }
            },
    {
        if capacity == 0 {
            return Err(
                GraphCacheError::Search(
                    GraphSearchError::Geometry(Geometry::ScratchPoolCapacityZero),
                ),
            );
        }
        match check_cancellation(cancellation, flags, now) {
            Err(error) => Err(GraphCacheError::Search(error)),
            Ok(_) => {
                if self.available.len() > 0 || self.checked_out < capacity {
                    Ok(CheckoutStep::Ready)
                } else {
                    Ok(CheckoutStep::Wait)
                }
            },
        }
    }

    /// The failure of a new scratch, if there is one: it is charged exactly
    /// before it is made.
    pub open spec fn allocation_failure(accounting: Accounting, allocation: ScratchAllocation) -> Option<
        GraphCacheError,
    > {
        match allocation {
            ScratchAllocation::NoSize(error) => Some(GraphCacheError::Search(error)),
            ScratchAllocation::Failed { requested, error } => match accounting.charged(
                requested,
                AllocationComponent::Cache,
            ) {
                Err(refusal) => Some(GraphCacheError::Store(refusal)),
                Ok(_) => Some(GraphCacheError::Search(error)),
            },
            ScratchAllocation::Made { requested, actual } => match accounting.charged(
                requested,
                AllocationComponent::Cache,
            ) {
                Err(refusal) => Some(GraphCacheError::Store(refusal)),
                Ok(_) => if actual != requested {
                    Some(
                        GraphCacheError::Search(
                            GraphSearchError::Geometry(
                                Geometry::ScratchCapacity { actual, requested },
                            ),
                        ),
                    )
                } else {
                    None
                },
            },
        }
    }

    /// Checks a scratch out. `discovered` are the entry rows, where they were
    /// not known; `reusable` says that the scratch that came back last fits, and
    /// `allocation` is how a new one was made where it does not. A scratch that
    /// does not fit is replaced by the new one.
    pub fn checkout(
        &mut self,
        accounting: &mut Accounting,
        discovered: Result<GraphEntries, GraphSearchError>,
        reusable: bool,
        allocation: ScratchAllocation,
    ) -> (result: Result<GraphScratchLease, GraphCacheError>)
        requires
            reusable ==> old(self).available@.len() > 0,
            old(self).available@.len() > 0 ==> old(self).available@.last() <= old(
                accounting,
            ).resident,
        ensures
            final(self).graph == old(self).graph,
            final(self).norm_range == old(self).norm_range,
            final(accounting).budgets == old(accounting).budgets,
            if old(self).entries is None && discovered is Err {
                &&& result == Err::<GraphScratchLease, GraphCacheError>(
                    GraphCacheError::Search(discovered->Err_0),
                )
                &&& *final(self) == *old(self)
                &&& *final(accounting) == *old(accounting)
            } else {
                let entries = match old(self).entries {
                    Some(known) => known,
                    None => discovered->Ok_0,
                };
                let failure = if reusable {
                    None
                } else {
                    Self::allocation_failure(*old(accounting), allocation)
                };
                let last = if old(self).available@.len() > 0 {
                    old(self).available@.last()
                } else {
                    0
                };
                &&& final(self).entries == Some(entries)
                &&& match failure {
                    Some(error) => {
                        &&& result == Err::<GraphScratchLease, GraphCacheError>(error)
                        &&& final(self).available@ == old(self).available@
                        &&& final(self).checked_out == old(self).checked_out
                        &&& *final(accounting) == *old(accounting)
                    },
                    None => if old(self).checked_out == usize::MAX {
                        &&& result == Err::<GraphScratchLease, GraphCacheError>(
                            GraphCacheError::Search(
                                GraphSearchError::Geometry(Geometry::ScratchCheckoutOverflow),
                            ),
                        )
                        &&& final(self).available@ == old(self).waiting()
                        &&& final(self).checked_out == old(self).checked_out
                        &&& final(accounting).resident == old(accounting).resident - last
                        &&& final(accounting).temporary == old(accounting).temporary
                    } else {
                        let bytes = if reusable {
                            last
                        } else {
                            allocation->Made_requested
                        };
                        &&& result == Ok::<GraphScratchLease, GraphCacheError>(
                            GraphScratchLease {
                                bytes,
                                entries,
                                entry_seed_discovered: old(self).entries is None,
                            },
                        )
                        &&& old(self).lends(*final(self))
                        &&& final(accounting).resident == old(accounting).resident + bytes - last
                        &&& final(accounting).temporary == old(accounting).temporary
                    },
                }
            },
    {
        let entry_seed_discovered = self.entries.is_none();
        if entry_seed_discovered {
            match discovered {
                Ok(found) => {
                    self.entries = Some(found);
                },
                Err(error) => {
                    return Err(GraphCacheError::Search(error));
                },
            }
        }
        let entries = match self.entries {
            Some(known) => known,
            None => GraphEntries { first: 0, second: 0, third: 0, fourth: 0 },
        };
        let bytes: u64 = if reusable {
            match self.available.pop() {
                Some(bytes) => bytes,
                None => 0,
            }
        } else {
            match allocation {
                ScratchAllocation::NoSize(error) => {
                    return Err(GraphCacheError::Search(error));
                },
                ScratchAllocation::Failed { requested, error } => {
                    match accounting.charge(requested, AllocationComponent::Cache) {
                        Err(refusal) => {
                            return Err(GraphCacheError::Store(refusal));
                        },
                        Ok(_) => {},
                    }
                    accounting.release(requested, AllocationComponent::Cache);
                    return Err(GraphCacheError::Search(error));
                },
                ScratchAllocation::Made { requested, actual } => {
                    match accounting.charge(requested, AllocationComponent::Cache) {
                        Err(refusal) => {
                            return Err(GraphCacheError::Store(refusal));
                        },
                        Ok(_) => {},
                    }
                    if actual != requested {
                        accounting.release(requested, AllocationComponent::Cache);
                        return Err(
                            GraphCacheError::Search(
                                GraphSearchError::Geometry(
                                    Geometry::ScratchCapacity { actual, requested },
                                ),
                            ),
                        );
                    }
                    if let Some(replaced) = self.available.pop() {
                        accounting.release(replaced, AllocationComponent::Cache);
                    }
                    requested
                },
            }
        };
        if self.checked_out == usize::MAX {
            accounting.release(bytes, AllocationComponent::Cache);
            return Err(
                GraphCacheError::Search(
                    GraphSearchError::Geometry(Geometry::ScratchCheckoutOverflow),
                ),
            );
        }
        self.checked_out = self.checked_out + 1;
        Ok(GraphScratchLease { bytes, entries, entry_seed_discovered })
    }

    /// Takes a scratch back.
    pub fn give_back(&mut self, lease: &GraphScratchLease)
        requires
            old(self).checked_out > 0,
        ensures
            old(self).regains(*final(self), *lease),
    {
        self.available.push(lease.bytes);
        self.checked_out = self.checked_out - 1;
    }
}

/// A pool of scratches never grows past its capacity: a checkout that was found
/// ready, which takes a waiting scratch or replaces it, keeps their number, and
/// one more is made only within the capacity.
pub proof fn lemma_checkout_stays_within_capacity(
    before: SegmentGraphSearchCache,
    after: SegmentGraphSearchCache,
    capacity: usize,
)
    requires
        before.available@.len() > 0 || before.checked_out < capacity,
        before.scratches() <= capacity,
        before.lends(after),
    ensures
        after.scratches() <= capacity,
{
}

/// A scratch that comes back can be checked out again.
pub proof fn lemma_returned_scratch_is_available(
    before: SegmentGraphSearchCache,
    after: SegmentGraphSearchCache,
    lease: GraphScratchLease,
)
    requires
        before.regains(after, lease),
    ensures
        after.scratches() == before.scratches(),
        after.available@.len() > 0 && after.available@.last() == lease.bytes,
{
}

} // verus!
