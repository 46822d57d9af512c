//! One closeable store handle: admission, publication and ordered teardown.

use crate::accounting::Accounting;
use crate::accounting::AllocationComponent;
use crate::candidates::ScanOutcome;
use crate::control::settled;
use crate::control::StopFlags;
use crate::control::StopState;
use crate::corpus::SegmentFacts;
use crate::durability::DurabilityPolicy;
use crate::error::ManifestError;
use crate::error::QueryError;
use crate::error::Schema;
use crate::error::SegmentError;
use crate::error::StoreError;
use crate::fusion::FusionError;
use crate::ids::EpochIdentity;
use crate::options::HybridExecutionReceipt;
use crate::options::HybridLegTestFault;
use crate::options::SearchOptions;
use crate::options::SearchTier;
use crate::options::StoreEpoch;
use crate::options::StoreState;
use crate::paths::join;
use crate::paths::joined;
use crate::rank::best;
use crate::snapshot::EpochMeta;
use crate::snapshot::Manifest;
use crate::snapshot::PublishedSnapshot;
use crate::snapshot::SegmentMeta;
use crate::snapshot::SnapshotLease;
use vstd::prelude::*;

verus! {

/// The mutable active segment of a handle.
#[derive(Clone, Copy, Debug, PartialEq, Eq, Structural)]
pub struct ActiveHandle {
    pub generation: u64,
    pub rows: usize,
}

/// How far the teardown of a handle has come.
#[derive(Clone, Copy, Debug, PartialEq, Eq, Structural)]
pub enum Teardown {
    NotStarted,
    Started,
    BackgroundStopped,
    SnapshotReleased,
    LockReleased,
}

/// One store handle.
#[derive(Debug)]
pub struct Store {
    /// Identity of this handle among the handles of a process.
    pub handle: u64,
    pub state: StoreState,
    pub teardown: Teardown,
    /// The lifecycle thread runs.
    pub background: bool,
    /// The query pool runs.
    pub query_pool: bool,
    /// The lexical worker runs.
    pub lexical_worker: bool,
    pub snapshot: Option<PublishedSnapshot>,
    pub active: Option<ActiveHandle>,
    /// The handle owns the writer lock.
    pub writer_lock: bool,
    pub durability_policy: DurabilityPolicy,
    /// Nanoseconds.
    pub reader_drain_timeout: u128,
    pub accounting: Accounting,
    pub active_queries: u64,
    pub epoch: Option<StoreEpoch>,
    /// Traversal profile of the declared epoch.
    pub epoch_meta: Option<EpochMeta>,
    pub epoch_alias: Option<EpochIdentity>,
    pub schema: Schema,
    pub hybrid_leg_fault: Option<HybridLegTestFault>,
    pub hybrid_execution_receipt: Option<HybridExecutionReceipt>,
}

/// What a caller is told by the state of a handle.
pub open spec fn admission(state: StoreState) -> Result<(), StoreError> {
    match state {
        StoreState::Open => Ok(()),
        StoreState::Closing => Err(StoreError::Closing),
        StoreState::Closed => Err(StoreError::Closed),
    }
}

fn ensure_open(state: StoreState) -> (result: Result<(), StoreError>)
    ensures
        result == admission(state),
{
    match state {
        StoreState::Open => Ok(()),
        StoreState::Closing => Err(StoreError::Closing),
        StoreState::Closed => Err(StoreError::Closed),
    }
}

/// What a vector query needs of the query pool: it is needed for an active
/// segment with rows and wherever the tier scans sealed segments by the pool.
pub open spec fn needs_pool(
    options: SearchOptions,
    segments: Seq<SegmentFacts>,
    active_rows: nat,
) -> bool {
    active_rows > 0 || match options.spec_tier() {
        SearchTier::Auto => exists|i: int|
            0 <= i < segments.len() && !(#[trigger] segments[i]).has_graph,
        SearchTier::Exact => false,
        SearchTier::Scan => true,
        SearchTier::Graph(_) => false,
    }
}

/// Whether a vector query needs the query pool.
pub fn needs_query_pool(
    options: SearchOptions,
    segments: &Vec<SegmentFacts>,
    active_rows: usize,
) -> (result: bool)
    ensures
        result == needs_pool(options, segments@, active_rows as nat),
{
    if active_rows > 0 {
        return true;
    }
    match options.tier() {
        SearchTier::Auto => {
            let mut at: usize = 0;
            while at < segments.len()
                invariant
                    at <= segments@.len(),
                    active_rows == 0,
                    options.spec_tier() is Auto,
                    forall|i: int| 0 <= i < at ==> (#[trigger] segments@[i]).has_graph,
                decreases segments.len() - at,
            {
                if !segments[at].has_graph {
                    assert(!segments@[at as int].has_graph);
                    return true;
                }
                at = at + 1;
            }
            false
        },
        SearchTier::Exact => false,
        SearchTier::Scan => true,
        SearchTier::Graph(_) => false,
    }
}

/// How the query pool of a handle was started, where it had to be.
#[derive(Clone, Debug, PartialEq, Eq)]
pub enum PoolStart {
    /// The machine's capacity could not be read.
    NoCapacity(String),
    /// The workers could not be started.
    Failed(StoreError),
    Started,
}

/// A seal that was admitted: what the manifest is stamped with.
#[derive(Clone, Copy, Debug, PartialEq, Eq, Structural)]
pub struct SealTicket {
    pub generation: u64,
    /// Embedding that the new segment is stamped with.
    pub epoch_id: Option<u64>,
    pub epoch_alias: Option<EpochIdentity>,
}

/// Buffers of a segment that a handle has taken over, charged byte by byte.
#[derive(Clone, Copy, Debug, PartialEq, Eq, Structural)]
pub struct PreparedSegment {
    /// Handle that charged the buffers.
    pub handle: u64,
    pub codes: u64,
    pub factors: u64,
    pub rescore: u64,
    pub resident_bytes: u64,
}

impl PreparedSegment {
    /// The bytes that the handle has taken over.
    pub fn resident_bytes(&self) -> (bytes: u64)
        ensures
            bytes == self.resident_bytes,
    {
        self.resident_bytes
    }
}

/// Factor buffers of a segment that is to be sealed.
#[derive(Clone, Copy, Debug, PartialEq, Eq, Structural)]
pub enum InMemorySegmentFactors {
    /// Bytes of the four-bit factor records.
    Bit4(u64),
    /// Bytes of the eight-bit factor records.
    Int8(u64),
}

impl InMemorySegmentFactors {
    /// Bytes of the records.
    pub open spec fn spec_bytes(self) -> u64 {
        match self {
            InMemorySegmentFactors::Bit4(bytes) => bytes,
            InMemorySegmentFactors::Int8(bytes) => bytes,
        }
    }

    /// Bytes of the records.
    pub fn bytes(&self) -> (bytes: u64)
        ensures
            bytes == self.spec_bytes(),
    {
        match self {
            InMemorySegmentFactors::Bit4(bytes) => *bytes,
            InMemorySegmentFactors::Int8(bytes) => *bytes,
        }
    }
}

/// Capacities of the buffers of a segment that is to be sealed.
#[derive(Clone, Copy, Debug, PartialEq, Eq, Structural)]
pub struct InMemorySegment {
    pub codes: u64,
    pub factors: InMemorySegmentFactors,
    pub rescore: u64,
}

/// What a caller of close does.
#[derive(Clone, Copy, Debug, PartialEq, Eq, Structural)]
pub enum CloseEntry {
    /// Run the teardown.
    Proceed,
    /// Wait for the teardown that runs.
    Wait,
    /// Nothing is left to do.
    Finished,
}

impl Store {
    /// A segment charged under this handle's ceilings.
    pub open spec fn charged_all(
        accounting: Accounting,
        codes: u64,
        factors: u64,
        rescore: u64,
    ) -> Result<(u64, u64), StoreError> {
        match accounting.charged(codes, AllocationComponent::Snapshot) {
            Err(error) => Err(error),
            Ok(first) => {
                let one = Accounting { resident: first.0, temporary: first.1, ..accounting };
                match one.charged(factors, AllocationComponent::Snapshot) {
                    Err(error) => Err(error),
                    Ok(second) => {
                        let two = Accounting {
                            resident: second.0,
                            temporary: second.1,
                            ..accounting
                        };
                        two.charged(rescore, AllocationComponent::Snapshot)
                    },
                }
            },
        }
    }

    /// Everything but the accounting is as it was.
    pub open spec fn same_but_accounting(self, other: Store) -> bool {
        self == (Store { accounting: self.accounting, ..other })
    }

    /// What the teardown has released: nothing before it starts, then the
    /// lifecycle thread, then the snapshot, then the writer lock; a handle is
    /// closed only behind all three.
    pub open spec fn orderly(self) -> bool {
        &&& self.state == StoreState::Open <==> self.teardown == Teardown::NotStarted
        &&& self.state == StoreState::Closed ==> self.teardown == Teardown::LockReleased
        &&& match self.teardown {
            Teardown::NotStarted => true,
            Teardown::Started => true,
            Teardown::BackgroundStopped => !self.background,
            Teardown::SnapshotReleased => !self.background && self.snapshot is None,
            Teardown::LockReleased => !self.background && self.snapshot is None
                && !self.writer_lock,
        }
    }

    /// The current lifecycle state.
    pub fn state(&self) -> (state: StoreState)
        ensures
            state == self.state,
    {
        self.state
    }

    /// The published embedding and tokenizer identity, where there is one.
    pub fn epoch_identity(&self) -> (identity: Option<EpochIdentity>)
        ensures
            identity == self.epoch_alias,
    {
        self.epoch_alias
    }

    /// The committed epochs carried forward: a declared handle whose prior
    /// registry is not at hand reconstructs its own entry.
    pub fn epoch_registry(&self, prior: &Vec<EpochMeta>) -> (epochs: Vec<EpochMeta>)
        ensures
            epochs@ == if prior@.len() > 0 {
                prior@
            } else {
                match self.epoch_meta {
                    Some(meta) => seq![meta],
                    None => Seq::empty(),
                }
            },
    {
        let mut epochs: Vec<EpochMeta> = Vec::new();
        if prior.len() > 0 {
            let mut at: usize = 0;
            while at < prior.len()
                invariant
                    at <= prior@.len(),
                    epochs@ == prior@.take(at as int),
                decreases prior.len() - at,
            {
                epochs.push(prior[at]);
                at = at + 1;
                assert(epochs@ == prior@.take(at as int));
            }
            assert(prior@.take(at as int) == prior@);
        } else if let Some(meta) = self.epoch_meta {
            epochs.push(meta);
        }
        epochs
    }

    /// What a lease request is answered.
    pub open spec fn lease_answer(self) -> Result<SnapshotLease, StoreError> {
        match admission(self.state) {
            Err(error) => Err(error),
            Ok(_) => match (self.active, self.snapshot) {
                (Some(active), Some(snapshot)) => Ok(
                    SnapshotLease { generation: active.generation, flag: snapshot.flag },
                ),
                _ => Err(StoreError::Closed),
            },
        }
    }

    /// Acquires the snapshot admitted for one read, at the active generation.
    pub fn snapshot(&self) -> (result: Result<SnapshotLease, StoreError>)
        ensures
            result == self.lease_answer(),
    {
        ensure_open(self.state)?;
        let generation: u64 = match &self.active {
            Some(active) => active.generation,
            None => {
                return Err(StoreError::Closed);
            },
        };
        match &self.snapshot {
            Some(snapshot) => Ok(SnapshotLease::new_at(snapshot, generation)),
            None => Err(StoreError::Closed),
        }
    }

    /// The same handle with one more query in flight.
    pub open spec fn with_query(self) -> Store {
        Store {
            active_queries: if self.active_queries < u64::MAX {
                (self.active_queries + 1) as u64
            } else {
                0
            },
            ..self
        }
    }

    /// The same handle with one query less in flight.
    pub open spec fn without_query(self) -> Store {
        Store {
            active_queries: if self.active_queries > 0 {
                (self.active_queries - 1) as u64
            } else {
                u64::MAX
            },
            ..self
        }
    }

    /// Admits a lexical query: a lease at the active generation, counted among
    /// the queries in flight.
    pub fn admit_lexical_query(&mut self) -> (result: Result<SnapshotLease, QueryError>)
        ensures
            match old(self).lease_answer() {
                Ok(lease) => result == Ok::<SnapshotLease, QueryError>(lease) && *final(self)
                    == old(self).with_query(),
                Err(error) => result == Err::<SnapshotLease, QueryError>(QueryError::Store(error))
                    && *final(self) == *old(self),
            },
    {
        match self.snapshot() {
            Ok(lease) => {
                self.count_query();
                Ok(lease)
            },
            Err(error) => Err(QueryError::Store(error)),
        }
    }

    fn count_query(&mut self)
        ensures
            *final(self) == old(self).with_query(),
    {
        if self.active_queries < u64::MAX {
            self.active_queries = self.active_queries + 1;
        } else {
            self.active_queries = 0;
        }
    }

    /// Takes a finished query out of those in flight.
    pub fn query_finished(&mut self)
        ensures
            *final(self) == old(self).without_query(),
    {
        if self.active_queries > 0 {
            self.active_queries = self.active_queries - 1;
        } else {
            self.active_queries = u64::MAX;
        }
    }

    /// What starting the pool leads to.
    pub open spec fn pool_answer(self, start: PoolStart) -> Result<(), QueryError> {
        if self.query_pool {
            Ok(())
        } else {
            match start {
                PoolStart::NoCapacity(source) => Err(
                    QueryError::Store(StoreError::QueryPoolCapacity { source }),
                ),
                PoolStart::Failed(error) => Err(QueryError::Store(error)),
                PoolStart::Started => Ok(()),
            }
        }
    }

    /// Settles that the query pool runs. `start` is how starting it went, where
    /// it did not run.
    pub fn ensure_query_pool(&mut self, start: PoolStart) -> (result: Result<(), QueryError>)
        ensures
            result == old(self).pool_answer(start),
            *final(self) == (Store {
                query_pool: old(self).query_pool || result is Ok,
                ..*old(self)
            }),
    {
        if self.query_pool {
            return Ok(());
        }
        match start {
            PoolStart::NoCapacity(source) => Err(
                QueryError::Store(StoreError::QueryPoolCapacity { source }),
            ),
            PoolStart::Failed(error) => Err(QueryError::Store(error)),
            PoolStart::Started => {
                self.query_pool = true;
                Ok(())
            },
        }
    }

    /// Admits a vector query: a lease at the active generation, counted among
    /// the queries in flight, with the query pool where the query needs it.
    pub fn admit_vector_search(
        &mut self,
        options: SearchOptions,
        segments: &Vec<SegmentFacts>,
        start: PoolStart,
    ) -> (result: Result<(SnapshotLease, bool), QueryError>)
        ensures
            old(self).orderly() ==> final(self).orderly(),
            match old(self).lease_answer() {
                Err(error) => {
                    &&& result == Err::<(SnapshotLease, bool), QueryError>(QueryError::Store(error))
                    &&& *final(self) == *old(self)
                },
                Ok(lease) => {
                    let pooled = needs_pool(
                        options,
                        segments@,
                        old(self).active->0.rows as nat,
                    );
                    if pooled && old(self).pool_answer(start) is Err {
                        &&& result == Err::<(SnapshotLease, bool), QueryError>(
                            old(self).pool_answer(start)->Err_0,
                        )
                        &&& *final(self) == *old(self)
                    } else {
                        &&& result == Ok::<(SnapshotLease, bool), QueryError>((lease, pooled))
                        &&& *final(self) == (Store {
                            query_pool: old(self).query_pool || pooled,
                            ..old(self).with_query()
                        })
                    }
                },
            },
    {
        let lease = match self.snapshot() {
            Ok(lease) => lease,
            Err(error) => {
                return Err(QueryError::Store(error));
            },
        };
        let rows: usize = match &self.active {
            Some(active) => active.rows,
            None => 0,
        };
        let pooled = needs_query_pool(options, segments, rows);
        if pooled {
            self.ensure_query_pool(start)?;
        }
        self.count_query();
        Ok((lease, pooled))
    }

    /// Admits one scan over the caller's own rows: a lease at the snapshot's
    /// generation, counted among the queries in flight. The pool is always
    /// needed.
    pub fn admit_scan(&mut self, start: PoolStart) -> (result: Result<SnapshotLease, QueryError>)
        ensures
            old(self).orderly() ==> final(self).orderly(),
            match admission(old(self).state) {
                Err(error) => {
                    &&& result == Err::<SnapshotLease, QueryError>(QueryError::Store(error))
                    &&& *final(self) == *old(self)
                },
                Ok(_) => match old(self).snapshot {
                    None => {
                        &&& result == Err::<SnapshotLease, QueryError>(
                            QueryError::Store(StoreError::Closed),
                        )
                        &&& *final(self) == *old(self)
                    },
                    Some(snapshot) => match old(self).pool_answer(start) {
                        Err(error) => {
                            &&& result == Err::<SnapshotLease, QueryError>(error)
                            &&& *final(self) == *old(self)
                        },
                        Ok(_) => {
                            &&& result == Ok::<SnapshotLease, QueryError>(
                                SnapshotLease {
                                    generation: snapshot.generation,
                                    flag: snapshot.flag,
                                },
                            )
                            &&& *final(self) == (Store {
                                query_pool: true,
                                ..old(self).with_query()
                            })
                        },
                    },
                },
            },
    {
        match ensure_open(self.state) {
            Err(error) => {
                return Err(QueryError::Store(error));
            },
            Ok(_) => {},
        }
        let lease = match &self.snapshot {
            Some(snapshot) => SnapshotLease::new(snapshot),
            None => {
                return Err(QueryError::Store(StoreError::Closed));
            },
        };
        self.ensure_query_pool(start)?;
        self.count_query();
        Ok(lease)
    }

    /// Runs one exact scan over the caller's own rows, which `scanned` is the
    /// outcome of, and keeps its best `k`.
    pub fn top_k_with_options(
        &mut self,
        start: PoolStart,
        scanned: Result<ScanOutcome, QueryError>,
        k: usize,
    ) -> (result: Result<ScanOutcome, QueryError>)
        ensures
            ({
                let refusal = match (admission(old(self).state), old(self).snapshot) {
                    (Err(error), _) => Some(QueryError::Store(error)),
                    (Ok(_), None) => Some(QueryError::Store(StoreError::Closed)),
                    (Ok(_), Some(_)) => match old(self).pool_answer(start) {
                        Err(error) => Some(error),
                        Ok(_) => None,
                    },
                };
                match refusal {
                    Some(error) => {
                        &&& result == Err::<ScanOutcome, QueryError>(error)
                        &&& *final(self) == *old(self)
                    },
                    None => {
                        &&& *final(self) == (Store { query_pool: true, ..*old(self) })
                        &&& match scanned {
                            Err(error) => result == Err::<ScanOutcome, QueryError>(error),
                            Ok(outcome) => result matches Ok(kept) && kept.candidates@ == best(
                                outcome.candidates@,
                                k as nat,
                            ) && kept.worst_score == outcome.worst_score && kept.stats
                                == outcome.stats,
                        }
                    },
                }
            }),
    {
        self.admit_scan(start)?;
        self.query_finished();
        match scanned {
            Err(error) => Err(error),
            Ok(outcome) => {
                let mut kept = outcome;
                truncate_scan(&mut kept, k);
                Ok(kept)
            },
        }
    }

    /// Ends a query worker on purpose, where the pool runs; `joined` is how the
    /// pool's workers then ended.
    pub fn panic_query_worker_for_test(&self, joined: Result<(), StoreError>) -> (result: Result<
        (),
        StoreError,
    >)
        ensures
            result == if self.query_pool {
                joined
            } else {
                Err(StoreError::Synchronization { component: "query pool initialization" })
            },
    {
        if self.query_pool {
            joined
        } else {
            Err(StoreError::Synchronization { component: "query pool initialization" })
        }
    }

    /// Settles that the lexical worker runs. `start` is how starting it went,
    /// where it did not run.
    pub fn ensure_lexical_worker(&mut self, start: Result<(), FusionError>) -> (result: Result<
        (),
        FusionError,
    >)
        ensures
            result == if old(self).lexical_worker {
                Ok(())
            } else {
                start
            },
            *final(self) == (Store {
                lexical_worker: old(self).lexical_worker || start is Ok,
                ..*old(self)
            }),
    {
        if self.lexical_worker {
            return Ok(());
        }
        if start.is_ok() {
            self.lexical_worker = true;
        }
        start
    }

    /// Files that the published snapshot needs, in its order: no cleanup may
    /// delete them. `names` holds the file name of each of its segments.
    pub fn reachable_segments(&self, directory: &str, names: &Vec<String>) -> (result: Result<
        Vec<String>,
        StoreError,
    >)
        requires
            self.snapshot matches Some(snapshot) ==> names@.len() == snapshot.segments@.len(),
        ensures
            match self.snapshot {
                None => result == Err::<Vec<String>, StoreError>(StoreError::Closed),
                Some(snapshot) => result matches Ok(paths) && paths@.len() == snapshot.segments@.len()
                    && forall|i: int|
                    0 <= i < names@.len() ==> (#[trigger] paths@[i])@ == joined(
                        directory@,
                        names@[i]@,
                    ),
            },
    {
        if self.snapshot.is_none() {
            return Err(StoreError::Closed);
        }
        let mut paths: Vec<String> = Vec::with_capacity(names.len());
        let mut at: usize = 0;
        while at < names.len()
            invariant
                at <= names@.len(),
                paths@.len() == at,
                forall|i: int|
                    0 <= i < at ==> (#[trigger] paths@[i])@ == joined(directory@, names@[i]@),
            decreases names.len() - at,
        {
            paths.push(join(directory, names[at].as_str()));
            at = at + 1;
        }
        Ok(paths)
    }

    /// The handle once a snapshot is published, or why it cannot be: later
    /// readers see the snapshot, and the generation never turns back.
    pub open spec fn published(self, snapshot: PublishedSnapshot) -> Result<Store, StoreError> {
        match (admission(self.state), self.active) {
            (Err(error), _) => Err(error),
            (Ok(_), None) => Err(StoreError::Closed),
            (Ok(_), Some(active)) => Ok(
                Store {
                    snapshot: Some(snapshot),
                    active: Some(
                        ActiveHandle {
                            generation: if active.generation < snapshot.generation {
                                snapshot.generation
                            } else {
                                active.generation
                            },
                            rows: active.rows,
                        },
                    ),
                    ..self
                },
            ),
        }
    }

    /// Publishes a whole snapshot. The active generation never goes back.
    pub fn publish_snapshot(&mut self, snapshot: PublishedSnapshot) -> (result: Result<
        (),
        StoreError,
    >)
        ensures
            old(self).orderly() ==> final(self).orderly(),
            match old(self).published(snapshot) {
                Ok(after) => result is Ok && *final(self) == after,
                Err(error) => result == Err::<(), StoreError>(error) && *final(self) == *old(self),
            },
    {
        ensure_open(self.state)?;
        match self.active {
            None => Err(StoreError::Closed),
            Some(active) => {
                let generation: u64 = if active.generation < snapshot.generation {
                    snapshot.generation
                } else {
                    active.generation
                };
                self.active = Some(ActiveHandle { generation, rows: active.rows });
                self.snapshot = Some(snapshot);
                Ok(())
            },
        }
    }

    /// Records that both legs of a hybrid query have completed, and where they
    /// ran.
    pub fn record_hybrid_execution(
        &mut self,
        vector_thread: u64,
        lexical_thread_name: Option<String>,
    )
        ensures
            *final(self) == (Store {
                hybrid_execution_receipt: Some(
                    HybridExecutionReceipt {
                        vector_thread,
                        lexical_thread_name,
                        vector_completed: true,
                        lexical_completed: true,
                    },
                ),
                ..*old(self)
            }),
    {
        self.hybrid_execution_receipt = Some(
            HybridExecutionReceipt {
                vector_thread,
                lexical_thread_name,
                vector_completed: true,
                lexical_completed: true,
            },
        );
    }

    /// Takes the latest hybrid execution receipt.
    pub fn take_hybrid_execution_receipt(&mut self) -> (receipt: Option<HybridExecutionReceipt>)
        ensures
            receipt == old(self).hybrid_execution_receipt,
            *final(self) == (Store { hybrid_execution_receipt: None, ..*old(self) }),
    {
        let mut receipt: Option<HybridExecutionReceipt> = None;
        std::mem::swap(&mut receipt, &mut self.hybrid_execution_receipt);
        receipt
    }

    /// Takes over the buffers of an already built segment and charges their
    /// capacities. On a failure nothing stays charged.
    pub fn prepare_segment(&mut self, segment: &InMemorySegment) -> (result: Result<
        PreparedSegment,
        StoreError,
    >)
        ensures
            old(self).orderly() ==> final(self).orderly(),
            match admission(old(self).state) {
                Err(error) => result == Err::<PreparedSegment, StoreError>(error) && *final(self)
                    == *old(self),
                Ok(_) => if !old(self).writer_lock {
                    result == Err::<PreparedSegment, StoreError>(StoreError::ReadOnly) && *final(
                        self) == *old(self)
                } else {
                    match Self::charged_all(
                        old(self).accounting,
                        segment.codes,
                        segment.factors.spec_bytes(),
                        segment.rescore,
                    ) {
                        Err(error) => {
                            &&& result == Err::<PreparedSegment, StoreError>(error)
                            &&& *final(self) == *old(self)
                        },
                        Ok(totals) => {
                            &&& result == Ok::<PreparedSegment, StoreError>(
                                PreparedSegment {
                                    handle: old(self).handle,
                                    codes: segment.codes,
                                    factors: segment.factors.spec_bytes(),
                                    rescore: segment.rescore,
                                    resident_bytes: (segment.codes + segment.factors.spec_bytes()
                                        + segment.rescore) as u64,
                                },
                            )
                            &&& final(self).same_but_accounting(*old(self))
                            &&& final(self).accounting == (Accounting {
                                resident: totals.0,
                                temporary: totals.1,
                                ..old(self).accounting
                            })
                        },
                    }
                },
            },
    {
        ensure_open(self.state)?;
        if !self.writer_lock {
            return Err(StoreError::ReadOnly);
        }
        let factors: u64 = segment.factors.bytes();
        self.accounting.charge(segment.codes, AllocationComponent::Snapshot)?;
        match self.accounting.charge(factors, AllocationComponent::Snapshot) {
            Ok(_) => {},
            Err(error) => {
                self.accounting.release(segment.codes, AllocationComponent::Snapshot);
                return Err(error);
            },
        }
        match self.accounting.charge(segment.rescore, AllocationComponent::Snapshot) {
            Ok(_) => {},
            Err(error) => {
                self.accounting.release(factors, AllocationComponent::Snapshot);
                self.accounting.release(segment.codes, AllocationComponent::Snapshot);
                return Err(error);
            },
        }
        let resident_bytes: u64 = segment.codes + factors + segment.rescore;
        Ok(
            PreparedSegment {
                handle: self.handle,
                codes: segment.codes,
                factors,
                rescore: segment.rescore,
                resident_bytes,
            },
        )
    }

    /// What a seal request is answered.
    pub open spec fn seal_answer(self, segment: PreparedSegment) -> Result<SealTicket, StoreError> {
        match admission(self.state) {
            Err(error) => Err(error),
            Ok(_) => if !self.writer_lock {
                Err(StoreError::ReadOnly)
            } else if segment.handle != self.handle {
                Err(StoreError::ForeignPreparedSegment)
            } else {
                match self.active {
                    None => Err(StoreError::Closed),
                    Some(active) => if active.generation == u64::MAX {
                        Err(StoreError::GenerationOverflow)
                    } else {
                        Ok(
                            SealTicket {
                                generation: (active.generation + 1) as u64,
                                epoch_id: match self.epoch_alias {
                                    Some(identity) => Some(identity.embedding),
                                    None => None,
                                },
                                epoch_alias: self.epoch_alias,
                            },
                        )
                    },
                }
            },
        }
    }

    /// The handle once the buffers of a prepared segment are dropped; those of
    /// another handle are that handle's to give back.
    pub open spec fn without(self, segment: PreparedSegment) -> Store {
        if segment.handle == self.handle {
            Store {
                accounting: Accounting {
                    resident: (self.accounting.resident - segment.resident_bytes) as u64,
                    ..self.accounting
                },
                ..self
            }
        } else {
            self
        }
    }

    /// The handle has charged at least what its prepared segment holds.
    pub open spec fn holds(self, segment: PreparedSegment) -> bool {
        segment.handle == self.handle ==> segment.resident_bytes <= self.accounting.resident
    }

    fn drop_prepared(&mut self, segment: &PreparedSegment)
        requires
            old(self).holds(*segment),
        ensures
            *final(self) == old(self).without(*segment),
    {
        if segment.handle == self.handle {
            self.accounting.release(segment.resident_bytes, AllocationComponent::Snapshot);
        }
    }

    /// Admits the seal of a prepared segment: it has to be prepared by this
    /// writing handle, and gets the next generation. A segment that is refused
    /// is dropped.
    pub fn begin_seal(&mut self, segment: &PreparedSegment) -> (result: Result<
        SealTicket,
        StoreError,
    >)
        requires
            old(self).holds(*segment),
        ensures
            old(self).orderly() ==> final(self).orderly(),
            result == old(self).seal_answer(*segment),
            *final(self) == if result is Ok {
                *old(self)
            } else {
                old(self).without(*segment)
            },
    {
        let answer = self.answer_seal(segment);
        if answer.is_err() {
            self.drop_prepared(segment);
        }
        answer
    }

    fn answer_seal(&self, segment: &PreparedSegment) -> (result: Result<SealTicket, StoreError>)
        ensures
            result == self.seal_answer(*segment),
    {
        ensure_open(self.state)?;
        if !self.writer_lock {
            return Err(StoreError::ReadOnly);
        }
        if segment.handle != self.handle {
            return Err(StoreError::ForeignPreparedSegment);
        }
        match &self.active {
            None => Err(StoreError::Closed),
            Some(active) => match active.generation.checked_add(1) {
                None => Err(StoreError::GenerationOverflow),
                Some(generation) => {
                    let epoch_id = match self.epoch_alias {
                        Some(identity) => Some(identity.embedding),
                        None => None,
                    };
                    Ok(SealTicket { generation, epoch_id, epoch_alias: self.epoch_alias })
                },
            },
        }
    }

    /// The manifest of a seal: one segment, stamped with the published
    /// embedding, under the handle's epochs and identity.
    pub open spec fn is_seal_manifest(
        self,
        ticket: SealTicket,
        meta: SegmentMeta,
        schema: Schema,
        manifest: Manifest,
    ) -> bool {
        &&& manifest.generation == ticket.generation
        &&& manifest.log_seq == 0
        &&& manifest.segments@ == seq![SegmentMeta { epoch_id: ticket.epoch_id, ..meta }]
        &&& manifest.epochs@ == match self.epoch_meta {
            Some(epoch) => seq![epoch],
            None => Seq::empty(),
        }
        &&& manifest.epoch_alias == ticket.epoch_alias
        &&& manifest.schema == schema
    }

    /// The manifest that an admitted seal commits, once its segment is written
    /// under `schema`. Where the segment could not be written it is dropped.
    pub fn seal_manifest(
        &mut self,
        ticket: &SealTicket,
        segment: &PreparedSegment,
        written: Result<SegmentMeta, SegmentError>,
        schema: Schema,
    ) -> (result: Result<Manifest, StoreError>)
        requires
            old(self).holds(*segment),
        ensures
            old(self).orderly() ==> final(self).orderly(),
            match written {
                Ok(meta) => {
                    &&& result matches Ok(manifest) && old(self).is_seal_manifest(
                        *ticket,
                        meta,
                        schema,
                        manifest,
                    )
                    &&& *final(self) == *old(self)
                },
                Err(error) => {
                    &&& result == Err::<Manifest, StoreError>(StoreError::Segment(error))
                    &&& *final(self) == old(self).without(*segment)
                },
            },
    {
        let meta = match written {
            Ok(meta) => meta,
            Err(error) => {
                self.drop_prepared(segment);
                return Err(StoreError::Segment(error));
            },
        };
        let mut segments: Vec<SegmentMeta> = Vec::new();
        segments.push(SegmentMeta { epoch_id: ticket.epoch_id, ..meta });
        let prior: Vec<EpochMeta> = Vec::new();
        let epochs = self.epoch_registry(&prior);
        Ok(
            Manifest {
                generation: ticket.generation,
                log_seq: 0,
                segments,
                epochs,
                epoch_alias: ticket.epoch_alias,
                schema,
            },
        )
    }

    /// Ends a seal: once its manifest is committed and loaded back, the loaded
    /// snapshot is published at the ticket's generation. However it ends, the
    /// prepared buffers are dropped.
    pub fn finish_seal(
        &mut self,
        ticket: &SealTicket,
        segment: &PreparedSegment,
        committed: Result<(), ManifestError>,
        loaded: Result<PublishedSnapshot, StoreError>,
    ) -> (result: Result<u64, StoreError>)
        requires
            old(self).seal_answer(*segment) == Ok::<SealTicket, StoreError>(*ticket),
            old(self).holds(*segment),
        ensures
            old(self).orderly() ==> final(self).orderly(),
            match (committed, loaded) {
                (Err(error), _) => {
                    &&& result == Err::<u64, StoreError>(StoreError::Manifest(error))
                    &&& *final(self) == old(self).without(*segment)
                },
                (Ok(_), Err(error)) => {
                    &&& result == Err::<u64, StoreError>(error)
                    &&& *final(self) == old(self).without(*segment)
                },
                (Ok(_), Ok(snapshot)) => {
                    &&& result == Ok::<u64, StoreError>(ticket.generation)
                    &&& *final(self) == (Store {
                        snapshot: Some(snapshot),
                        active: Some(
                            ActiveHandle {
                                generation: ticket.generation,
                                rows: old(self).active->0.rows,
                            },
                        ),
                        ..old(self).without(*segment)
                    })
                },
            },
    {
        self.drop_prepared(segment);
        if let Err(error) = committed {
            return Err(StoreError::Manifest(error));
        }
        match loaded {
            Err(error) => Err(error),
            Ok(snapshot) => {
                self.snapshot = Some(snapshot);
                if let Some(active) = self.active {
                    self.active = Some(
                        ActiveHandle { generation: ticket.generation, rows: active.rows },
                    );
                }
                Ok(ticket.generation)
            },
        }
    }

    /// Enters close: the first caller runs the teardown, callers meanwhile wait
    /// for it, and later callers find it done.
    pub fn begin_close(&mut self) -> (entry: CloseEntry)
        ensures
            old(self).orderly() ==> final(self).orderly(),
            match old(self).state {
                StoreState::Open => {
                    &&& entry == CloseEntry::Proceed
                    &&& *final(self) == (Store {
                        state: StoreState::Closing,
                        teardown: Teardown::Started,
                        ..*old(self)
                    })
                },
                StoreState::Closing => entry == CloseEntry::Wait && *final(self) == *old(self),
                StoreState::Closed => entry == CloseEntry::Finished && *final(self) == *old(self),
            },
    {
        match self.state {
            StoreState::Open => {
                self.state = StoreState::Closing;
                self.teardown = Teardown::Started;
                CloseEntry::Proceed
            },
            StoreState::Closing => CloseEntry::Wait,
            StoreState::Closed => CloseEntry::Finished,
        }
    }

    /// Takes the lifecycle thread out of the handle; says whether there is one
    /// to stop and join.
    pub fn take_background(&mut self) -> (running: bool)
        requires
            old(self).state == StoreState::Closing,
            old(self).teardown == Teardown::Started,
        ensures
            old(self).orderly() ==> final(self).orderly(),
            running == old(self).background,
            *final(self) == (Store {
                background: false,
                teardown: Teardown::BackgroundStopped,
                ..*old(self)
            }),
    {
        let running = self.background;
        self.background = false;
        self.teardown = Teardown::BackgroundStopped;
        running
    }

    /// Takes the published snapshot out of the handle, to be drained.
    pub fn take_snapshot(&mut self) -> (snapshot: Option<PublishedSnapshot>)
        requires
            old(self).state == StoreState::Closing,
            old(self).teardown == Teardown::BackgroundStopped,
        ensures
            old(self).orderly() ==> final(self).orderly(),
            snapshot == old(self).snapshot,
            *final(self) == (Store {
                snapshot: None,
                teardown: Teardown::SnapshotReleased,
                ..*old(self)
            }),
    {
        let mut snapshot: Option<PublishedSnapshot> = None;
        std::mem::swap(&mut snapshot, &mut self.snapshot);
        self.teardown = Teardown::SnapshotReleased;
        snapshot
    }

    /// Takes the writer lock out of the handle; says whether there is one to
    /// release.
    pub fn take_writer_lock(&mut self) -> (held: bool)
        requires
            old(self).state == StoreState::Closing,
            old(self).teardown == Teardown::SnapshotReleased,
        ensures
            old(self).orderly() ==> final(self).orderly(),
            held == old(self).writer_lock,
            *final(self) == (Store {
                writer_lock: false,
                teardown: Teardown::LockReleased,
                ..*old(self)
            }),
    {
        let held = self.writer_lock;
        self.writer_lock = false;
        self.teardown = Teardown::LockReleased;
        held
    }

    /// Ends the teardown; a lifecycle thread that failed is reported.
    pub fn finish_close(&mut self, background: Result<(), StoreError>) -> (result: Result<
        (),
        StoreError,
    >)
        requires
            old(self).state == StoreState::Closing,
            old(self).teardown == Teardown::LockReleased,
        ensures
            old(self).orderly() ==> final(self).orderly(),
            result == background,
            *final(self) == (Store { state: StoreState::Closed, ..*old(self) }),
    {
        self.state = StoreState::Closed;
        background
    }

    /// Runs the teardown of a handle that goes out of scope: nothing fails,
    /// nothing waits, and readers that are left are cancelled.
    pub fn close_best_effort(&mut self, flags: &mut StopFlags)
        requires
            old(self).snapshot matches Some(snapshot) ==> snapshot.on_board(old(flags)@),
        ensures
            old(self).orderly() ==> final(self).orderly(),
            old(self).state == StoreState::Closed ==> *final(self) == *old(self) && final(flags)@
                == old(flags)@,
            old(self).state != StoreState::Closed ==> {
                &&& *final(self) == (Store {
                    state: StoreState::Closed,
                    teardown: Teardown::LockReleased,
                    background: false,
                    snapshot: None,
                    writer_lock: false,
                    ..*old(self)
                })
                &&& final(flags)@ == match old(self).snapshot {
                    Some(snapshot) => settled(old(flags)@, snapshot.flag, StopState::Cancelled),
                    None => old(flags)@,
                }
            },
    {
        if self.state == StoreState::Closed {
            return;
        }
        self.state = StoreState::Closing;
        self.background = false;
        let mut snapshot: Option<PublishedSnapshot> = None;
        std::mem::swap(&mut snapshot, &mut self.snapshot);
        if let Some(released) = &snapshot {
            released.cancel_readers(flags);
        }
        self.writer_lock = false;
        self.teardown = Teardown::LockReleased;
        self.state = StoreState::Closed;
    }
}

/// Keeps the best `k` of a scan over the caller's own rows.
pub fn truncate_scan(outcome: &mut ScanOutcome, k: usize)
    ensures
        final(outcome).candidates@ == best(old(outcome).candidates@, k as nat),
        final(outcome).worst_score == old(outcome).worst_score,
        final(outcome).stats == old(outcome).stats,
{
    let ghost all = outcome.candidates@;
    outcome.candidates.truncate(k);
    assert(outcome.candidates@ == best(all, k as nat));
}

/// Order of the teardown events of a handle, for tests.
#[derive(Clone, Copy, Debug, PartialEq, Eq, Structural)]
pub struct TeardownProbe {
    pub sequence: u64,
    pub background_stopped: u64,
    pub snapshot_released: u64,
}

impl TeardownProbe {
    /// A probe that has seen nothing.
    pub fn new() -> (probe: TeardownProbe)
        ensures
            probe == (TeardownProbe { sequence: 0, background_stopped: 0, snapshot_released: 0 }),
    {
        TeardownProbe { sequence: 0, background_stopped: 0, snapshot_released: 0 }
    }

    /// Records that the lifecycle thread stopped; the first record stays.
    pub fn record_background_stopped(&mut self)
        requires
            old(self).sequence < u64::MAX,
        ensures
            final(self).sequence == old(self).sequence + 1,
            final(self).snapshot_released == old(self).snapshot_released,
            final(self).background_stopped == if old(self).background_stopped == 0 {
                (old(self).sequence + 1) as u64
            } else {
                old(self).background_stopped
            },
    {
        self.sequence = self.sequence + 1;
        if self.background_stopped == 0 {
            self.background_stopped = self.sequence;
        }
    }

    /// Records that the snapshot was released; the first record stays.
    pub fn record_snapshot_released(&mut self)
        requires
            old(self).sequence < u64::MAX,
        ensures
            final(self).sequence == old(self).sequence + 1,
            final(self).background_stopped == old(self).background_stopped,
            final(self).snapshot_released == if old(self).snapshot_released == 0 {
                (old(self).sequence + 1) as u64
            } else {
                old(self).snapshot_released
            },
    {
        self.sequence = self.sequence + 1;
        if self.snapshot_released == 0 {
            self.snapshot_released = self.sequence;
        }
    }

    /// The places of the two events, zero where one was not seen.
    pub fn events(&self) -> (events: (u64, u64))
        ensures
            events == (self.background_stopped, self.snapshot_released),
    {
        (self.background_stopped, self.snapshot_released)
    }
}

/// A handle that is not open admits nothing: no lease, no query, no
/// publication and no seal.
pub proof fn lemma_only_open_handles_admit(store: Store, segment: PreparedSegment)
    requires
        store.state != StoreState::Open,
    ensures
        store.lease_answer() is Err,
        store.seal_answer(segment) is Err,
        admission(store.state) == Err::<(), StoreError>(StoreError::Closing) || admission(
            store.state,
        ) == Err::<(), StoreError>(StoreError::Closed),
{
}

/// A handle is torn down in order: its lifecycle thread goes before its snapshot
/// is released, its snapshot before its writer lock, and a closed handle holds
/// none of the three.
pub proof fn lemma_teardown_is_ordered(store: Store)
    requires
        store.orderly(),
        store.state != StoreState::Open,
    ensures
        store.state == StoreState::Closed ==> !store.background && store.snapshot is None
            && !store.writer_lock,
        store.snapshot is Some ==> store.teardown == Teardown::Started || store.teardown
            == Teardown::BackgroundStopped,
        store.background ==> store.teardown == Teardown::Started,
        store.writer_lock ==> store.teardown != Teardown::LockReleased,
        store.teardown == Teardown::SnapshotReleased ==> !store.background,
        store.teardown == Teardown::LockReleased ==> !store.background && store.snapshot is None,
{
}

/// Only a handle with the writer lock seals.
pub proof fn lemma_read_only_handles_never_seal(store: Store, segment: PreparedSegment)
    requires
        !store.writer_lock,
    ensures
        store.seal_answer(segment) is Err,
{
}

/// A sealed generation is one above the active one, so generations only grow.
pub proof fn lemma_seal_generation_grows(store: Store, segment: PreparedSegment)
    requires
        store.seal_answer(segment) is Ok,
    ensures
        store.active matches Some(active) && store.seal_answer(segment)->Ok_0.generation
            == active.generation + 1,
{
}

/// A publication swaps the whole snapshot: a reader that is admitted behind it
/// reads the new snapshot, at its generation or a later one that was reached
/// before. What an earlier reader holds is its own and stays as it was.
pub proof fn lemma_publication_never_turns_back(store: Store, snapshot: PublishedSnapshot)
    requires
        store.lease_answer() is Ok,
    ensures
        store.published(snapshot) matches Ok(after) && {
            let earlier = store.lease_answer()->Ok_0;
            let later = after.lease_answer();
            &&& later is Ok
            &&& later->Ok_0.flag == snapshot.flag
            &&& later->Ok_0.generation >= earlier.generation
            &&& later->Ok_0.generation >= snapshot.generation
            &&& later->Ok_0.generation == earlier.generation || later->Ok_0.generation
                == snapshot.generation
        },
{
}

} // verus!
