//! Vector preparation kept for one admitted query: layouts of the query vector
//! and exact scores that later rounds reuse.

use crate::accounting::Accounted;
use crate::accounting::Accounting;
use crate::accounting::AllocationComponent;
use crate::budget::Budgets;
use crate::corpus::take_unread;
use crate::corpus::unread_at;
use crate::corpus::UnreadDocument;
use crate::error::overflow_error;
use crate::error::Geometry as GeometryError;
use crate::error::GraphSearchError;
use crate::error::QueryError;
use crate::error::ScanError;
use crate::error::SegmentError;
use crate::error::StoreError;
use crate::identity::find_ranked;
use crate::identity::lemma_rank_identifies;
use crate::identity::PhysicalIdentity;
use crate::ids::DocumentVersion;
use crate::ids::EpochIdentity;
use crate::ids::GlobalRowId;
use crate::ids::RowSource;
use crate::rank::is_ranked;
use crate::rank::lemma_permutation_keeps_members;
use crate::rank::lemma_ranked_is_permutation;
use crate::rank::lemma_ranked_is_ranked;
use crate::rank::rank_items;
use crate::rank::ranked;
use crate::rank::Ranked;
use crate::search::graph_error;
use crate::search::map_graph_error;
use vstd::prelude::*;

verus! {

/// Shape of one prepared layout.
#[derive(Clone, Copy, Debug, PartialEq, Eq, Structural)]
pub struct LayoutGeometry {
    pub dimensions: usize,
    pub padded_dimensions: usize,
    pub seed: u64,
    pub space: Option<EpochIdentity>,
}

/// One prepared layout and the bytes of its codes.
#[derive(Clone, Copy, Debug, PartialEq, Eq, Structural)]
pub struct PreparedLayout {
    pub geometry: LayoutGeometry,
    pub codes: u64,
}

/// What the storage of exact scores comes to: how many it holds, how many fit,
/// and the totals of the ledger that it is charged to.
pub struct ScoreRoom {
    pub len: nat,
    pub capacity: nat,
    pub resident: int,
    pub temporary: int,
}

/// One exact score of a sealed row, by its encoding.
#[derive(Clone, Copy, Debug, PartialEq, Eq, Structural)]
pub struct GraphExactScore {
    pub identity: PhysicalIdentity,
    pub bits: u64,
}

impl Ranked for GraphExactScore {
    /// By row, document and revision.
    open spec fn rank(self) -> (int, int, int) {
        self.identity.rank()
    }

    fn ranks_before(&self, other: &Self) -> (result: bool) {
        self.identity.ranks_before(&other.identity)
    }

    fn ties_with(&self, other: &Self) -> (result: bool) {
        self.identity.ties_with(&other.identity)
    }
}

/// Preparation of one query vector.
#[derive(Debug)]
pub struct PreparedVectorQuery {
    /// Identity of the caller's vector.
    pub query: u64,
    pub dimensions: usize,
    /// Every value of the vector is zero.
    pub all_zero: bool,
    pub space: Option<EpochIdentity>,
    pub layouts: Accounted<PreparedLayout>,
    pub graph_scores: Accounted<GraphExactScore>,
    /// Scores that can be read.
    pub sorted: usize,
}

/// Scores of rows and how many of them were computed.
#[derive(Debug)]
pub struct GraphRescore {
    pub scores: Vec<u64>,
    pub candidates_rescored: usize,
}

/// Whether a layout has to be prepared.
#[derive(Clone, Copy, Debug, PartialEq, Eq, Structural)]
pub enum LayoutStep {
    /// The layout at this place fits.
    Ready(usize),
    /// Prepare the layout; this many bytes are charged for it meanwhile.
    Prepare { peak: u64 },
}

/// Bytes of the codes of layouts.
pub open spec fn code_bytes(layouts: Seq<PreparedLayout>) -> nat
    decreases layouts.len(),
{
    if layouts.len() == 0 {
        0
    } else {
        code_bytes(layouts.drop_last()) + layouts.last().codes as nat
    }
}

/// Buffers that preparation holds at once, in bytes per dimension: one or two
/// code buffers, and a padding buffer where the vector is padded.
pub open spec fn buffers(all_zero: bool, padded: bool) -> nat {
    (if all_zero {
        1nat
    } else {
        2nat
    }) + (if padded {
        4nat
    } else {
        0nat
    })
}

/// The least capacity that grown score storage has.
pub const SCORE_CAPACITY_FLOOR: usize = 16;

impl PreparedVectorQuery {
    /// Charges match capacities and readable scores are ranked.
    pub open spec fn wf(self) -> bool {
        &&& self.layouts.well_formed()
        &&& self.layouts.component == AllocationComponent::Temporary
        &&& self.graph_scores.well_formed()
        &&& self.graph_scores.component == AllocationComponent::Temporary
        &&& self.sorted <= self.graph_scores.items@.len()
        &&& is_ranked(self.graph_scores.items@.take(self.sorted as int))
    }

    /// Bytes that the preparation is charged.
    pub open spec fn charge(self) -> nat {
        (self.layouts.bytes + self.graph_scores.bytes) as nat + code_bytes(self.layouts.items@)
    }

    /// The totals hold at least what the preparation is charged.
    pub open spec fn covered_by(self, accounting: Accounting) -> bool {
        self.charge() <= accounting.temporary && self.charge() <= accounting.resident
    }

    /// The preparation of the same vector.
    pub open spec fn same_vector(self, other: PreparedVectorQuery) -> bool {
        &&& self.query == other.query
        &&& self.dimensions == other.dimensions
        &&& self.all_zero == other.all_zero
        &&& self.space == other.space
    }

    /// The shape of a layout of this query.
    pub open spec fn geometry(self, padded_dimensions: usize, seed: u64) -> LayoutGeometry {
        LayoutGeometry {
            dimensions: self.dimensions,
            padded_dimensions,
            seed,
            space: self.space,
        }
    }

    /// Nothing prepared.
    pub fn new(query: u64, dimensions: usize, all_zero: bool, space: Option<EpochIdentity>) -> (prepared:
        PreparedVectorQuery)
        ensures
            prepared.wf(),
            prepared.query == query,
            prepared.dimensions == dimensions,
            prepared.all_zero == all_zero,
            prepared.space == space,
            prepared.layouts.items@.len() == 0,
            prepared.graph_scores.items@.len() == 0,
            prepared.charge() == 0,
    {
        PreparedVectorQuery {
            query,
            dimensions,
            all_zero,
            space,
            layouts: Accounted::unaccounted_empty(AllocationComponent::Temporary),
            graph_scores: Accounted::unaccounted_empty(AllocationComponent::Temporary),
            sorted: 0,
        }
    }

    /// Whether the preparation belongs to a query and an epoch.
    pub open spec fn binding(self, query: u64, space: Option<EpochIdentity>) -> Result<
        (),
        QueryError,
    > {
        if query != self.query || space != self.space {
            Err(
                QueryError::Graph(
                    GraphSearchError::Geometry(GeometryError::ForeignPreparedVector),
                ),
            )
        } else {
            Ok(())
        }
    }

    /// Refuses a preparation of another query or epoch.
    pub fn validate_binding(&self, query: u64, space: Option<EpochIdentity>) -> (result: Result<
        (),
        QueryError,
    >)
        ensures
            result == self.binding(query, space),
    {
        let same_space = match (space, self.space) {
            (None, None) => true,
            (Some(left), Some(right)) => left == right,
            _ => false,
        };
        if query != self.query || !same_space {
            return Err(
                QueryError::Graph(
                    GraphSearchError::Geometry(GeometryError::ForeignPreparedVector),
                ),
            );
        }
        Ok(())
    }

    /// The first layout of a shape is at `at`.
    pub open spec fn first_layout(self, geometry: LayoutGeometry, at: int) -> bool {
        &&& 0 <= at < self.layouts.items@.len()
        &&& self.layouts.items@[at].geometry == geometry
        &&& forall|i: int|
            0 <= i < at ==> (#[trigger] self.layouts.items@[i]).geometry != geometry
    }

    /// No layout has a shape.
    pub open spec fn lacks(self, geometry: LayoutGeometry) -> bool {
        forall|i: int|
            0 <= i < self.layouts.items@.len() ==> (#[trigger] self.layouts.items@[i]).geometry
                != geometry
    }

    /// Totals once the list of layouts has grown.
    pub open spec fn grown(
        before: PreparedVectorQuery,
        after: PreparedVectorQuery,
        accounting: Accounting,
    ) -> Accounting {
        Accounting {
            resident: (accounting.resident - before.layouts.bytes + after.layouts.bytes) as u64,
            temporary: (accounting.temporary - before.layouts.bytes + after.layouts.bytes) as u64,
            ..accounting
        }
    }

    /// Everything but the room for layouts is as it was.
    pub open spec fn same_but_room(self, other: PreparedVectorQuery) -> bool {
        &&& self == (PreparedVectorQuery { layouts: self.layouts, ..other })
        &&& self.layouts.items@ == other.layouts.items@
    }

    /// Finds the layout of a shape, or makes room and charges what preparing it
    /// holds at its peak, before anything is allocated for it.
    pub fn plan_layout(
        &mut self,
        accounting: &mut Accounting,
        query: u64,
        padded_dimensions: usize,
        seed: u64,
    ) -> (result: Result<LayoutStep, QueryError>)
        requires
            old(self).wf(),
            old(self).covered_by(*old(accounting)),
        ensures
            final(self).wf(),
            final(self).same_but_room(*old(self)),
            ({
                let geometry = old(self).geometry(padded_dimensions, seed);
                let held = old(self).layouts;
                let wanted = held.items@.len() + 1;
                let peak = padded_dimensions * buffers(
                    old(self).all_zero,
                    padded_dimensions != old(self).dimensions,
                );
                let room = Self::grown(*old(self), *final(self), *old(accounting));
                if query != old(self).query {
                    &&& result is Err && Err::<(), QueryError>(result->Err_0) == old(self).binding(
                        query,
                        old(self).space,
                    )
                    &&& *final(self) == *old(self)
                    &&& *final(accounting) == *old(accounting)
                } else if !old(self).lacks(geometry) {
                    &&& result matches Ok(LayoutStep::Ready(at)) && old(self).first_layout(
                        geometry,
                        at as int,
                    )
                    &&& *final(self) == *old(self)
                    &&& *final(accounting) == *old(accounting)
                } else if wanted > usize::MAX {
                    &&& result == Err::<LayoutStep, QueryError>(overflow_error())
                    &&& *final(self) == *old(self)
                    &&& *final(accounting) == *old(accounting)
                } else if held.growth(*old(accounting), wanted as usize) is Err {
                    &&& result == Err::<LayoutStep, QueryError>(
                        QueryError::Store(
                            held.growth(*old(accounting), wanted as usize)->Err_0,
                        ),
                    )
                    &&& *final(self) == *old(self)
                    &&& *final(accounting) == *old(accounting)
                } else {
                    &&& final(self).layouts.capacity == if wanted <= held.capacity {
                        held.capacity
                    } else {
                        wanted as usize
                    }
                    &&& if peak > usize::MAX {
                        &&& result == Err::<LayoutStep, QueryError>(overflow_error())
                        &&& *final(accounting) == room
                        &&& final(self).covered_by(*final(accounting))
                    } else {
                        match room.charged(peak as u64, AllocationComponent::Temporary) {
                            Err(refused) => {
                                &&& result == Err::<LayoutStep, QueryError>(
                                    QueryError::Store(refused),
                                )
                                &&& *final(accounting) == room
                                &&& final(self).covered_by(*final(accounting))
                            },
                            Ok(totals) => {
                                &&& result == Ok::<LayoutStep, QueryError>(
                                    LayoutStep::Prepare { peak: peak as u64 },
                                )
                                &&& *final(accounting) == (Accounting {
                                    resident: totals.0,
                                    temporary: totals.1,
                                    ..*old(accounting)
                                })
                                &&& final(self).charge() + peak <= final(accounting).temporary
                                &&& final(self).charge() + peak <= final(accounting).resident
                            },
                        }
                    }
                }
            }),
    {
        let own_space = self.space;
        self.validate_binding(query, own_space)?;
        let geometry = LayoutGeometry {
            dimensions: self.dimensions,
            padded_dimensions,
            seed,
            space: self.space,
        };
        let mut at: usize = 0;
        while at < self.layouts.items.len()
            invariant
                at <= self.layouts.items@.len(),
                *self == *old(self),
                *accounting == *old(accounting),
                query == old(self).query,
                geometry == old(self).geometry(padded_dimensions, seed),
                old(self).wf(),
                old(self).covered_by(*old(accounting)),
                forall|i: int|
                    0 <= i < at ==> (#[trigger] self.layouts.items@[i]).geometry != geometry,
            decreases self.layouts.items.len() - at,
        {
            let held = self.layouts.items[at].geometry;
            let same_space = match (held.space, geometry.space) {
                (None, None) => true,
                (Some(left), Some(right)) => left == right,
                _ => false,
            };
            if held.dimensions == geometry.dimensions && held.padded_dimensions
                == geometry.padded_dimensions && held.seed == geometry.seed && same_space {
                return Ok(LayoutStep::Ready(at));
            }
            at = at + 1;
        }
        let wanted: usize = match self.layouts.items.len().checked_add(1) {
            Some(wanted) => wanted,
            None => {
                return Err(QueryError::Scan(ScanError::ArithmeticOverflow));
            },
        };
        let ghost before = self.layouts;
        match self.layouts.try_reserve_total(accounting, wanted) {
            Ok(_) => {},
            Err(error) => {
                return Err(QueryError::Store(error));
            },
        }
        proof {
            vstd::arithmetic::mul::lemma_mul_inequality(
                before.capacity as int,
                self.layouts.capacity as int,
                vstd::layout::size_of::<PreparedLayout>() as int,
            );
        }
        let per_dimension: usize = (if self.all_zero {
            1usize
        } else {
            2usize
        }) + (if padded_dimensions != self.dimensions {
            4usize
        } else {
            0usize
        });
        let peak: usize = match padded_dimensions.checked_mul(per_dimension) {
            Some(peak) => peak,
            None => {
                return Err(QueryError::Scan(ScanError::ArithmeticOverflow));
            },
        };
        match accounting.charge(peak as u64, AllocationComponent::Temporary) {
            Ok(_) => Ok(LayoutStep::Prepare { peak: peak as u64 }),
            Err(error) => Err(QueryError::Store(error)),
        }
    }

    /// Publishes a layout that was planned: `prepared` says how many bytes its
    /// codes hold, or why there is none. A failure gives back what was charged
    /// for it and publishes nothing.
    pub fn finish_layout(
        &mut self,
        accounting: &mut Accounting,
        padded_dimensions: usize,
        seed: u64,
        peak: u64,
        prepared: Result<u64, GraphSearchError>,
    ) -> (result: Result<usize, QueryError>)
        requires
            old(self).wf(),
            old(self).layouts.items@.len() < old(self).layouts.capacity,
            old(self).charge() + peak <= old(accounting).temporary,
            old(self).charge() + peak <= old(accounting).resident,
        ensures
            final(self).wf(),
            final(self).same_vector(*old(self)),
            final(accounting).budgets == old(accounting).budgets,
            match prepared {
                Err(error) => {
                    &&& result == Err::<usize, QueryError>(graph_error(error))
                    &&& *final(self) == *old(self)
                    &&& final(accounting).resident == old(accounting).resident - peak
                    &&& final(accounting).temporary == old(accounting).temporary - peak
                },
                Ok(codes) => match old(accounting).charged(
                    if codes > peak {
                        (codes - peak) as u64
                    } else {
                        0
                    },
                    AllocationComponent::Temporary,
                ) {
                    Err(refused) if codes > peak => {
                        &&& result == Err::<usize, QueryError>(QueryError::Store(refused))
                        &&& *final(self) == *old(self)
                        &&& final(accounting).resident == old(accounting).resident - peak
                        &&& final(accounting).temporary == old(accounting).temporary - peak
                    },
                    _ => {
                        &&& result == Ok::<usize, QueryError>(
                            old(self).layouts.items@.len() as usize,
                        )
                        &&& final(self).layouts.items@ == old(self).layouts.items@.push(
                            PreparedLayout {
                                geometry: old(self).geometry(padded_dimensions, seed),
                                codes,
                            },
                        )
                        &&& final(self).graph_scores == old(self).graph_scores
                        &&& final(self).charge() == old(self).charge() + codes
                        &&& final(self).covered_by(*final(accounting))
                        &&& final(accounting).resident == old(accounting).resident - peak + codes
                        &&& final(accounting).temporary == old(accounting).temporary - peak + codes
                    },
                },
            },
    {
        let codes: u64 = match prepared {
            Ok(codes) => codes,
            Err(error) => {
                accounting.release(peak, AllocationComponent::Temporary);
                return Err(map_graph_error(error));
            },
        };
        if codes > peak {
            match accounting.charge(codes - peak, AllocationComponent::Temporary) {
                Ok(_) => {},
                Err(error) => {
                    accounting.release(peak, AllocationComponent::Temporary);
                    return Err(QueryError::Store(error));
                },
            }
        } else {
            accounting.release(peak - codes, AllocationComponent::Temporary);
        }
        let index: usize = self.layouts.items.len();
        let geometry = LayoutGeometry {
            dimensions: self.dimensions,
            padded_dimensions,
            seed,
            space: self.space,
        };
        let ghost before = self.layouts.items@;
        self.layouts.items.push(PreparedLayout { geometry, codes });
        assert(self.layouts.items@.drop_last() == before);
        Ok(index)
    }

    /// Identity of a sealed row; a row that cannot be addressed, or whose
    /// document cannot be read, has none.
    pub open spec fn identity_at(
        source: RowSource,
        row: usize,
        document: Option<DocumentVersion>,
        fault: Option<SegmentError>,
    ) -> Result<PhysicalIdentity, QueryError> {
        if row > u32::MAX {
            Err(overflow_error())
        } else if fault is Some {
            Err(QueryError::Store(StoreError::Segment(fault->Some_0)))
        } else {
            Ok(
                PhysicalIdentity {
                    row: GlobalRowId { source, local_row: row as u32 },
                    document,
                },
            )
        }
    }

    fn key(
        source: RowSource,
        row: usize,
        document: Option<DocumentVersion>,
        fault: Option<SegmentError>,
    ) -> (result: Result<PhysicalIdentity, QueryError>)
        ensures
            result == Self::identity_at(source, row, document, fault),
    {
        if row > u32::MAX as usize {
            return Err(QueryError::Scan(ScanError::ArithmeticOverflow));
        }
        if let Some(error) = fault {
            return Err(QueryError::Store(StoreError::Segment(error)));
        }
        Ok(PhysicalIdentity { row: GlobalRowId::new(source, row as u32), document })
    }

    /// Reads an exact score of an earlier round; `fault` says why the row's
    /// document could not be read, where it could not.
    pub fn graph_score(
        &self,
        source: RowSource,
        row: usize,
        document: Option<DocumentVersion>,
        fault: Option<SegmentError>,
    ) -> (result: Result<Option<u64>, QueryError>)
        requires
            self.wf(),
        ensures
            match Self::identity_at(source, row, document, fault) {
                Err(error) => result == Err::<Option<u64>, QueryError>(error),
                Ok(identity) => match result {
                    Ok(Some(bits)) => exists|i: int|
                        0 <= i < self.sorted && (#[trigger] self.graph_scores.items@[i]) == (
                        GraphExactScore { identity, bits }),
                    Ok(None) => forall|i: int|
                        0 <= i < self.sorted ==> (#[trigger] self.graph_scores.items@[i]).identity
                            != identity,
                    Err(_) => false,
                },
            },
    {
        let identity = match Self::key(source, row, document, fault) {
            Ok(identity) => identity,
            Err(error) => {
                return Err(error);
            },
        };
        let probe = GraphExactScore { identity, bits: 0 };
        match find_ranked(&self.graph_scores.items, self.sorted, &probe) {
            Some(at) => {
                proof {
                    lemma_rank_identifies(self.graph_scores.items@[at as int].identity, identity);
                }
                let bits: u64 = self.graph_scores.items[at].bits;
                assert(self.graph_scores.items@[at as int] == GraphExactScore { identity, bits });
                Ok(Some(bits))
            },
            None => {
                assert forall|i: int| 0 <= i < self.sorted implies (
                #[trigger] self.graph_scores.items@[i]).identity != identity by {
                    assert(self.graph_scores.items@[i].rank() != probe.rank());
                }
                Ok(None)
            },
        }
    }

    /// The capacity that full score storage grows to.
    pub open spec fn grown_capacity(len: nat) -> nat {
        if 2 * len < SCORE_CAPACITY_FLOOR {
            SCORE_CAPACITY_FLOOR as nat
        } else {
            2 * len
        }
    }

    /// The storage with one more score, or why there is no room for it.
    pub open spec fn with_score(room: ScoreRoom, budgets: Budgets) -> Result<
        ScoreRoom,
        QueryError,
    > {
        let wanted = Self::grown_capacity(room.len);
        let bytes = Accounted::<GraphExactScore>::bytes_for(wanted as int);
        let component = AllocationComponent::Temporary.spec_name();
        if room.len < room.capacity {
            Ok(ScoreRoom { len: room.len + 1, ..room })
        } else if wanted > usize::MAX {
            Err(overflow_error())
        } else if bytes > u64::MAX {
            Err(
                QueryError::Store(
                    StoreError::BudgetExceeded { needed: u64::MAX, budget: u64::MAX, component },
                ),
            )
        } else {
            match budgets.outcome(
                room.resident as u64,
                room.temporary as u64,
                bytes as u64,
                component,
                true,
            ) {
                Err(error) => Err(QueryError::Store(error)),
                Ok(_) => {
                    let added = bytes - Accounted::<GraphExactScore>::bytes_for(
                        room.capacity as int,
                    );
                    Ok(
                        ScoreRoom {
                            len: room.len + 1,
                            capacity: wanted,
                            resident: room.resident + added,
                            temporary: room.temporary + added,
                        },
                    )
                },
            }
        }
    }

    /// What the storage comes to as it is.
    pub open spec fn room(self, accounting: Accounting) -> ScoreRoom {
        ScoreRoom {
            len: self.graph_scores.items@.len(),
            capacity: self.graph_scores.capacity as nat,
            resident: accounting.resident as int,
            temporary: accounting.temporary as int,
        }
    }

    /// What the storage comes to behind the first `n` rows, or the failure of
    /// the first row that has one: it cannot be addressed, its document cannot
    /// be read, or there is no room for its score.
    pub open spec fn room_after(
        self,
        accounting: Accounting,
        source: RowSource,
        rows: Seq<usize>,
        documents: Seq<Option<DocumentVersion>>,
        fault: Option<UnreadDocument>,
        n: nat,
    ) -> Result<ScoreRoom, QueryError>
        decreases n,
    {
        if n == 0 {
            Ok(self.room(accounting))
        } else {
            match self.room_after(accounting, source, rows, documents, fault, (n - 1) as nat) {
                Err(error) => Err(error),
                Ok(room) => match Self::identity_at(
                    source,
                    rows[n - 1],
                    documents[n - 1],
                    unread_at(fault, n - 1),
                ) {
                    Err(error) => Err(error),
                    Ok(identity) => if self.unread(identity) {
                        Self::with_score(room, accounting.budgets)
                    } else {
                        Ok(room)
                    },
                },
            }
        }
    }

    /// How many of the first `n` rows come before the first that has a failure.
    pub open spec fn rows_done(
        self,
        accounting: Accounting,
        source: RowSource,
        rows: Seq<usize>,
        documents: Seq<Option<DocumentVersion>>,
        fault: Option<UnreadDocument>,
        n: nat,
    ) -> nat
        decreases n,
    {
        if n == 0 || self.room_after(accounting, source, rows, documents, fault, n) is Ok {
            n
        } else {
            self.rows_done(accounting, source, rows, documents, fault, (n - 1) as nat)
        }
    }

    proof fn lemma_rows_done(
        self,
        accounting: Accounting,
        source: RowSource,
        rows: Seq<usize>,
        documents: Seq<Option<DocumentVersion>>,
        fault: Option<UnreadDocument>,
        at: nat,
        end: nat,
    )
        requires
            at < end,
            self.room_after(accounting, source, rows, documents, fault, at) is Ok,
            self.room_after(accounting, source, rows, documents, fault, at + 1) is Err,
        ensures
            self.rows_done(accounting, source, rows, documents, fault, end) == at,
            self.room_after(accounting, source, rows, documents, fault, end) == self.room_after(
                accounting,
                source,
                rows,
                documents,
                fault,
                at + 1,
            ),
        decreases end - at,
    {
        self.lemma_room_failure_sticks(accounting, source, rows, documents, fault, at + 1, end);
        if at + 1 < end {
            self.lemma_rows_done(
                accounting,
                source,
                rows,
                documents,
                fault,
                at,
                (end - 1) as nat,
            );
        } else {
            assert(self.rows_done(accounting, source, rows, documents, fault, at) == at);
        }
    }

    /// The scores of those of the first `n` rows that have none that can be read,
    /// in row order: each is the row's own.
    pub open spec fn new_scores(
        self,
        source: RowSource,
        rows: Seq<usize>,
        documents: Seq<Option<DocumentVersion>>,
        exact: Seq<u64>,
        n: nat,
    ) -> Seq<GraphExactScore>
        decreases n,
    {
        if n == 0 {
            Seq::empty()
        } else {
            let earlier = self.new_scores(source, rows, documents, exact, (n - 1) as nat);
            match Self::identity_at(source, rows[n - 1], documents[n - 1], None) {
                Ok(identity) if self.unread(identity) => earlier.push(
                    GraphExactScore { identity, bits: exact[n - 1] },
                ),
                _ => earlier,
            }
        }
    }

    proof fn lemma_room_failure_sticks(
        self,
        accounting: Accounting,
        source: RowSource,
        rows: Seq<usize>,
        documents: Seq<Option<DocumentVersion>>,
        fault: Option<UnreadDocument>,
        n: nat,
        end: nat,
    )
        requires
            n <= end,
            self.room_after(accounting, source, rows, documents, fault, n) is Err,
        ensures
            self.room_after(accounting, source, rows, documents, fault, end) == self.room_after(
                accounting,
                source,
                rows,
                documents,
                fault,
                n,
            ),
        decreases end - n,
    {
        if n < end {
            self.lemma_room_failure_sticks(
                accounting,
                source,
                rows,
                documents,
                fault,
                n,
                (end - 1) as nat,
            );
        }
    }

    /// Adds an exact score; full storage is doubled, and the replacement is
    /// charged while the old storage is held. On a failure nothing changes.
    pub fn insert_graph_score(
        &mut self,
        accounting: &mut Accounting,
        source: RowSource,
        row: usize,
        document: Option<DocumentVersion>,
        fault: Option<SegmentError>,
        bits: u64,
    ) -> (result: Result<(), QueryError>)
        requires
            old(self).wf(),
            old(self).covered_by(*old(accounting)),
        ensures
            final(self).wf(),
            final(self).covered_by(*final(accounting)),
            final(self).same_vector(*old(self)),
            final(self).layouts == old(self).layouts,
            final(self).sorted == old(self).sorted,
            final(accounting).budgets == old(accounting).budgets,
            final(accounting).temporary - old(accounting).temporary
                == final(self).graph_scores.bytes - old(self).graph_scores.bytes,
            final(accounting).resident - old(accounting).resident == final(self).graph_scores.bytes
                - old(self).graph_scores.bytes,
            match Self::identity_at(source, row, document, fault) {
                Err(error) => {
                    &&& result == Err::<(), QueryError>(error)
                    &&& *final(self) == *old(self)
                },
                Ok(identity) => {
                    let held = old(self).graph_scores;
                    let full = held.items@.len() == held.capacity;
                    let wanted = Self::grown_capacity(held.items@.len());
                    if full && wanted > usize::MAX {
                        &&& result == Err::<(), QueryError>(overflow_error())
                        &&& *final(self) == *old(self)
                    } else if full && held.growth(*old(accounting), wanted as usize) is Err {
                        &&& result == Err::<(), QueryError>(
                            QueryError::Store(
                                held.growth(*old(accounting), wanted as usize)->Err_0,
                            ),
                        )
                        &&& *final(self) == *old(self)
                    } else {
                        &&& result is Ok
                        &&& final(self).graph_scores.items@ == held.items@.push(
                            GraphExactScore { identity, bits },
                        )
                        &&& final(self).graph_scores.capacity == if full {
                            wanted as usize
                        } else {
                            held.capacity
                        }
                    }
                },
            },
    {
        let identity = match Self::key(source, row, document, fault) {
            Ok(identity) => identity,
            Err(error) => {
                return Err(error);
            },
        };
        let ghost before = self.graph_scores;
        let ghost readable = before.items@.take(self.sorted as int);
        let len: usize = self.graph_scores.items.len();
        if len == self.graph_scores.capacity {
            let double: usize = match len.checked_mul(2) {
                Some(double) => double,
                None => {
                    return Err(QueryError::Scan(ScanError::ArithmeticOverflow));
                },
            };
            let wanted: usize = if double < SCORE_CAPACITY_FLOOR {
                SCORE_CAPACITY_FLOOR
            } else {
                double
            };
            match self.graph_scores.try_reserve_total(accounting, wanted) {
                Ok(_) => {},
                Err(error) => {
                    return Err(QueryError::Store(error));
                },
            }
        }
        self.graph_scores.items.push(GraphExactScore { identity, bits });
        assert(self.graph_scores.items@.take(self.sorted as int) == readable);
        Ok(())
    }

    /// Ends a round of rescoring: every score can be read from now on.
    pub fn finish_graph_scores(&mut self)
        requires
            old(self).wf(),
        ensures
            final(self).wf(),
            final(self).same_vector(*old(self)),
            final(self).graph_scores.items@ == ranked(old(self).graph_scores.items@),
            final(self).graph_scores.bytes == old(self).graph_scores.bytes,
            final(self).graph_scores.capacity == old(self).graph_scores.capacity,
            final(self).layouts == old(self).layouts,
            final(self).sorted == old(self).graph_scores.items@.len(),
    {
        let ghost before = self.graph_scores.items@;
        rank_items(&mut self.graph_scores.items);
        self.sorted = self.graph_scores.items.len();
        proof {
            lemma_ranked_is_permutation(before);
            lemma_ranked_is_ranked(before);
            assert(self.graph_scores.items@.take(self.sorted as int) == self.graph_scores.items@);
        }
    }

    /// A score that can be read before the call that `rows` is scored in.
    pub open spec fn readable(self, identity: PhysicalIdentity, bits: u64) -> bool {
        exists|i: int|
            0 <= i < self.sorted && (#[trigger] self.graph_scores.items@[i]) == (GraphExactScore {
                identity,
                bits,
            })
    }

    /// No score of this identity can be read.
    pub open spec fn unread(self, identity: PhysicalIdentity) -> bool {
        forall|i: int|
            0 <= i < self.sorted ==> (#[trigger] self.graph_scores.items@[i]).identity != identity
    }

    /// The score of one row: one that can be read, else the row's own.
    pub open spec fn score_of(
        self,
        source: RowSource,
        row: usize,
        document: Option<DocumentVersion>,
        exact: u64,
        score: u64,
    ) -> bool {
        Self::identity_at(source, row, document, None) matches Ok(identity) && (self.readable(
            identity,
            score,
        ) || self.unread(identity) && score == exact)
    }

    /// How many of the first `n` rows have no score that can be read.
    pub open spec fn unread_rows(
        self,
        source: RowSource,
        rows: Seq<usize>,
        documents: Seq<Option<DocumentVersion>>,
        n: nat,
    ) -> nat
        decreases n,
    {
        if n == 0 {
            0
        } else {
            let earlier = self.unread_rows(source, rows, documents, (n - 1) as nat);
            match Self::identity_at(source, rows[n - 1], documents[n - 1], None) {
                Ok(identity) if self.unread(identity) => earlier + 1,
                _ => earlier,
            }
        }
    }

    /// Scores rows of a sealed segment, each by an exact score of an earlier
    /// call where there is one and by its own, which is `exact`, where there is
    /// none. `fault` is the first document that could not be read, where there is
    /// one. Whatever comes out, the scores that were kept stay, and those of the
    /// rows before the first failure are kept beside them: a later call reads them.
    pub fn rescore_graph(
        &mut self,
        accounting: &mut Accounting,
        query: u64,
        source: RowSource,
        rows: &Vec<usize>,
        documents: &Vec<Option<DocumentVersion>>,
        fault: Option<UnreadDocument>,
        exact: &Vec<u64>,
    ) -> (result: Result<GraphRescore, QueryError>)
        requires
            old(self).wf(),
            old(self).covered_by(*old(accounting)),
            old(self).sorted == old(self).graph_scores.items@.len(),
            rows@.len() == documents@.len(),
            rows@.len() == exact@.len(),
        ensures
            final(self).wf(),
            final(self).covered_by(*final(accounting)),
            final(self).same_vector(*old(self)),
            final(self).sorted == final(self).graph_scores.items@.len(),
            final(self).layouts == old(self).layouts,
            final(accounting).budgets == old(accounting).budgets,
            final(accounting).temporary - old(accounting).temporary
                == final(self).graph_scores.bytes - old(self).graph_scores.bytes,
            final(accounting).resident - old(accounting).resident == final(self).graph_scores.bytes
                - old(self).graph_scores.bytes,
            query != old(self).query ==> {
                &&& result is Err && Err::<(), QueryError>(result->Err_0) == old(self).binding(
                    query,
                    old(self).space,
                )
                &&& *final(self) == *old(self)
                &&& *final(accounting) == *old(accounting)
            },
            query == old(self).query ==> {
                let done = old(self).rows_done(
                    *old(accounting),
                    source,
                    rows@,
                    documents@,
                    fault,
                    rows@.len(),
                );
                &&& match old(self).room_after(
                    *old(accounting),
                    source,
                    rows@,
                    documents@,
                    fault,
                    rows@.len(),
                ) {
                    Err(error) => result == Err::<GraphRescore, QueryError>(error),
                    Ok(_) => result is Ok,
                }
                &&& old(self).room_after(
                    *old(accounting),
                    source,
                    rows@,
                    documents@,
                    fault,
                    done,
                ) == Ok::<ScoreRoom, QueryError>(final(self).room(*final(accounting)))
                &&& final(self).graph_scores.items@ == ranked(
                    old(self).graph_scores.items@ + old(self).new_scores(
                        source,
                        rows@,
                        documents@,
                        exact@,
                        done,
                    ),
                )
            },
            result matches Ok(done) ==> {
                &&& done.scores@.len() == rows@.len()
                &&& forall|i: int|
                    0 <= i < rows@.len() ==> old(self).score_of(
                        source,
                        #[trigger] rows@[i],
                        documents@[i],
                        exact@[i],
                        done.scores@[i],
                    )
                &&& done.candidates_rescored == old(self).unread_rows(
                    source,
                    rows@,
                    documents@,
                    rows@.len(),
                )
            },
    {
        let own_space = self.space;
        match self.validate_binding(query, own_space) {
            Ok(_) => {},
            Err(error) => {
                return Err(error);
            },
        }
        let ghost start = *self;
        let ghost opening = *accounting;
        let ghost whole = fault;
        let mut pending = fault;
        let mut scores: Vec<u64> = Vec::with_capacity(rows.len());
        let mut rescored: usize = 0;
        let mut failure: Option<QueryError> = None;
        let mut at: usize = 0;
        while at < rows.len() && failure.is_none()
            invariant
                at <= rows@.len(),
                rows@.len() == documents@.len(),
                rows@.len() == exact@.len(),
                start.wf(),
                self.wf(),
                self.covered_by(*accounting),
                start.sorted == start.graph_scores.items@.len(),
                self.sorted == start.sorted,
                self.same_vector(start),
                self.layouts == start.layouts,
                self.graph_scores.items@.len() >= start.sorted,
                self.graph_scores.items@.take(start.sorted as int) == start.graph_scores.items@,
                accounting.budgets == opening.budgets,
                accounting.temporary - opening.temporary == self.graph_scores.bytes
                    - start.graph_scores.bytes,
                accounting.resident - opening.resident == self.graph_scores.bytes
                    - start.graph_scores.bytes,
                whole == fault,
                failure is None ==> forall|i: int|
                    i >= at ==> unread_at(pending, i) == #[trigger] unread_at(whole, i),
                start.room_after(opening, source, rows@, documents@, whole, at as nat) == Ok::<
                    ScoreRoom,
                    QueryError,
                >(self.room(*accounting)),
                failure matches Some(error) ==> at < rows@.len() && start.room_after(
                    opening,
                    source,
                    rows@,
                    documents@,
                    whole,
                    (at + 1) as nat,
                ) == Err::<ScoreRoom, QueryError>(error),
                self.graph_scores.items@ == start.graph_scores.items@ + start.new_scores(
                    source,
                    rows@,
                    documents@,
                    exact@,
                    at as nat,
                ),
                failure is None ==> scores@.len() == at,
                failure is None ==> forall|i: int|
                    0 <= i < at ==> start.score_of(
                        source,
                        #[trigger] rows@[i],
                        documents@[i],
                        exact@[i],
                        scores@[i],
                    ),
                failure is None ==> rescored <= at,
                failure is None ==> rescored == start.unread_rows(
                    source,
                    rows@,
                    documents@,
                    at as nat,
                ),
            decreases rows.len() - at, if failure is None { 1int } else { 0int },
        {
            let ghost prefix = self.graph_scores.items@.take(start.sorted as int);
            assert(unread_at(pending, at as int) == unread_at(whole, at as int));
            let due = take_unread(&mut pending, at);
            match self.graph_score(source, rows[at], documents[at], due) {
                Err(error) => {
                    failure = Some(error);
                },
                Ok(Some(bits)) => {
                    proof {
                        let identity = Self::identity_at(
                            source,
                            rows@[at as int],
                            documents@[at as int],
                            None,
                        )->Ok_0;
                        let i = choose|i: int|
                            0 <= i < self.sorted && (#[trigger] self.graph_scores.items@[i]) == (
                            GraphExactScore { identity, bits });
                        assert(prefix[i] == start.graph_scores.items@[i]);
                        assert(start.readable(identity, bits));
                        assert(start.graph_scores.items@[i].identity == identity);
                    }
                    scores.push(bits);
                    at = at + 1;
                },
                Ok(None) => {
                    proof {
                        let identity = Self::identity_at(
                            source,
                            rows@[at as int],
                            documents@[at as int],
                            None,
                        )->Ok_0;
                        assert forall|i: int| 0 <= i < start.sorted implies (
                        #[trigger] start.graph_scores.items@[i]).identity != identity by {
                            assert(prefix[i] == self.graph_scores.items@[i]);
                        }
                        assert(start.unread(identity));
                    }
                    match self.insert_graph_score(
                        accounting,
                        source,
                        rows[at],
                        documents[at],
                        None,
                        exact[at],
                    ) {
                        Err(error) => {
                            failure = Some(error);
                        },
                        Ok(_) => {
                            assert(self.graph_scores.items@.take(start.sorted as int) == prefix);
                            scores.push(exact[at]);
                            rescored = rescored + 1;
                            at = at + 1;
                        },
                    }
                },
            }
        }
        proof {
            if failure is Some {
                start.lemma_rows_done(
                    opening,
                    source,
                    rows@,
                    documents@,
                    whole,
                    at as nat,
                    rows@.len(),
                );
            }
            lemma_ranked_is_permutation(self.graph_scores.items@);
        }
        self.finish_graph_scores();
        match failure {
            Some(error) => Err(error),
            None => Ok(GraphRescore { scores, candidates_rescored: rescored }),
        }
    }

    /// Drops the preparation and gives everything back that it was charged.
    pub fn release(self, accounting: &mut Accounting)
        requires
            self.wf(),
            self.covered_by(*old(accounting)),
        ensures
            final(accounting).budgets == old(accounting).budgets,
            final(accounting).temporary == old(accounting).temporary - self.charge(),
            final(accounting).resident == old(accounting).resident - self.charge(),
    {
        let ghost all = self.layouts.items@;
        let ghost total = self.charge();
        let ghost before = *accounting;
        let layouts = self.layouts.items;
        let mut left: usize = layouts.len();
        assert(all.take(left as int) == all);
        while left > 0
            invariant
                layouts@ == all,
                left <= all.len(),
                accounting.budgets == before.budgets,
                self.layouts.bytes + self.graph_scores.bytes + code_bytes(all) == total,
                total <= before.temporary,
                total <= before.resident,
                code_bytes(all.take(left as int)) <= code_bytes(all),
                accounting.temporary == before.temporary - (code_bytes(all) - code_bytes(
                    all.take(left as int),
                )),
                accounting.resident == before.resident - (code_bytes(all) - code_bytes(
                    all.take(left as int),
                )),
            decreases left,
        {
            assert(all.take(left as int).drop_last() == all.take(left - 1));
            assert(all.take(left as int).last() == all[left - 1]);
            left = left - 1;
            accounting.release(layouts[left].codes, AllocationComponent::Temporary);
        }
        assert(all.take(0).len() == 0);
        accounting.release(self.layouts.bytes, AllocationComponent::Temporary);
        accounting.release(self.graph_scores.bytes, AllocationComponent::Temporary);
    }
}

/// One identity has one score.
pub open spec fn agree(entries: Seq<GraphExactScore>) -> bool {
    forall|left: GraphExactScore, right: GraphExactScore|
        #![trigger entries.contains(left), entries.contains(right)]
        entries.contains(left) && entries.contains(right) && left.identity == right.identity
            ==> left == right
}

/// One row has one score.
pub open spec fn one_score_each(
    rows: Seq<usize>,
    documents: Seq<Option<DocumentVersion>>,
    exact: Seq<u64>,
) -> bool {
    forall|i: int, j: int|
        0 <= i < rows.len() && 0 <= j < rows.len() && #[trigger] rows[i] == #[trigger] rows[j]
            && documents[i] == documents[j] ==> exact[i] == exact[j]
}

proof fn lemma_new_scores_are_of_rows(
    prepared: PreparedVectorQuery,
    source: RowSource,
    rows: Seq<usize>,
    documents: Seq<Option<DocumentVersion>>,
    exact: Seq<u64>,
    n: nat,
)
    requires
        n <= rows.len(),
    ensures
        forall|x: GraphExactScore| #[trigger]
            prepared.new_scores(source, rows, documents, exact, n).contains(x) ==> {
                &&& prepared.unread(x.identity)
                &&& exists|i: int|
                    0 <= i < n && PreparedVectorQuery::identity_at(
                        source,
                        #[trigger] rows[i],
                        documents[i],
                        None,
                    ) == Ok::<PhysicalIdentity, QueryError>(x.identity) && x.bits == exact[i]
            },
        forall|i: int|
            0 <= i < n ==> (PreparedVectorQuery::identity_at(
                source,
                #[trigger] rows[i],
                documents[i],
                None,
            ) matches Ok(identity) ==> (prepared.unread(identity) ==> prepared.new_scores(
                source,
                rows,
                documents,
                exact,
                n,
            ).contains(GraphExactScore { identity, bits: exact[i] }))),
    decreases n,
{
    if n > 0 {
        let shorter = (n - 1) as nat;
        lemma_new_scores_are_of_rows(prepared, source, rows, documents, exact, shorter);
        let earlier = prepared.new_scores(source, rows, documents, exact, shorter);
        let all = prepared.new_scores(source, rows, documents, exact, n);
        assert forall|x: GraphExactScore| #[trigger] all.contains(x) implies {
            &&& prepared.unread(x.identity)
            &&& exists|i: int|
                0 <= i < n && PreparedVectorQuery::identity_at(
                    source,
                    #[trigger] rows[i],
                    documents[i],
                    None,
                ) == Ok::<PhysicalIdentity, QueryError>(x.identity) && x.bits == exact[i]
        } by {
            let place = choose|place: int| 0 <= place < all.len() && all[place] == x;
            if place < earlier.len() {
                assert(earlier[place] == x);
                assert(earlier.contains(x));
            } else {
                assert(rows[n - 1] == rows[shorter as int]);
            }
        }
        assert forall|i: int| 0 <= i < n implies (PreparedVectorQuery::identity_at(
            source,
            #[trigger] rows[i],
            documents[i],
            None,
        ) matches Ok(identity) ==> (prepared.unread(identity) ==> all.contains(
            GraphExactScore { identity, bits: exact[i] },
        ))) by {
            if let Ok(identity) = PreparedVectorQuery::identity_at(
                source,
                rows[i],
                documents[i],
                None,
            ) {
                if prepared.unread(identity) {
                    let x = GraphExactScore { identity, bits: exact[i] };
                    if i < shorter {
                        assert(earlier.contains(x));
                        let place = choose|place: int|
                            0 <= place < earlier.len() && earlier[place] == x;
                        assert(all[place] == x);
                    } else {
                        assert(all[all.len() - 1] == x);
                    }
                }
            }
        }
    }
}

proof fn lemma_kept_scores(
    before: PreparedVectorQuery,
    source: RowSource,
    rows: Seq<usize>,
    documents: Seq<Option<DocumentVersion>>,
    exact: Seq<u64>,
    kept: Seq<GraphExactScore>,
)
    requires
        kept == ranked(
            before.graph_scores.items@ + before.new_scores(
                source,
                rows,
                documents,
                exact,
                rows.len(),
            ),
        ),
    ensures
        forall|x: GraphExactScore| #[trigger]
            kept.contains(x) <==> before.graph_scores.items@.contains(x) || before.new_scores(
                source,
                rows,
                documents,
                exact,
                rows.len(),
            ).contains(x),
{
    let old_scores = before.graph_scores.items@;
    let fresh = before.new_scores(source, rows, documents, exact, rows.len());
    let both = old_scores + fresh;
    lemma_ranked_is_permutation(both);
    lemma_permutation_keeps_members(both, kept);
    assert forall|x: GraphExactScore| #[trigger] kept.contains(x) <==> old_scores.contains(x)
        || fresh.contains(x) by {
        assert(both.contains(x) <==> kept.contains(x));
        if both.contains(x) {
            let i = choose|i: int| 0 <= i < both.len() && both[i] == x;
            if i < old_scores.len() {
                assert(old_scores[i] == x);
            } else {
                assert(fresh[i - old_scores.len()] == x);
            }
        }
        if old_scores.contains(x) {
            let i = choose|i: int| 0 <= i < old_scores.len() && old_scores[i] == x;
            assert(both[i] == x);
        }
        if fresh.contains(x) {
            let i = choose|i: int| 0 <= i < fresh.len() && fresh[i] == x;
            assert(both[old_scores.len() + i] == x);
        }
    }
}

/// Kept scores agree where they did before and each row has one score.
pub proof fn lemma_kept_scores_agree(
    before: PreparedVectorQuery,
    after: PreparedVectorQuery,
    source: RowSource,
    rows: Seq<usize>,
    documents: Seq<Option<DocumentVersion>>,
    exact: Seq<u64>,
)
    requires
        before.sorted == before.graph_scores.items@.len(),
        agree(before.graph_scores.items@),
        one_score_each(rows, documents, exact),
        after.graph_scores.items@ == ranked(
            before.graph_scores.items@ + before.new_scores(
                source,
                rows,
                documents,
                exact,
                rows.len(),
            ),
        ),
    ensures
        agree(after.graph_scores.items@),
{
    let kept = after.graph_scores.items@;
    let fresh = before.new_scores(source, rows, documents, exact, rows.len());
    lemma_kept_scores(before, source, rows, documents, exact, kept);
    lemma_new_scores_are_of_rows(before, source, rows, documents, exact, rows.len());
    assert forall|left: GraphExactScore, right: GraphExactScore|
        #![trigger kept.contains(left), kept.contains(right)]
        kept.contains(left) && kept.contains(right) && left.identity
            == right.identity implies left == right by {
        if fresh.contains(left) && fresh.contains(right) {
            let i = choose|i: int|
                0 <= i < rows.len() && PreparedVectorQuery::identity_at(
                    source,
                    #[trigger] rows[i],
                    documents[i],
                    None,
                ) == Ok::<PhysicalIdentity, QueryError>(left.identity) && left.bits == exact[i];
            let j = choose|j: int|
                0 <= j < rows.len() && PreparedVectorQuery::identity_at(
                    source,
                    #[trigger] rows[j],
                    documents[j],
                    None,
                ) == Ok::<PhysicalIdentity, QueryError>(right.identity) && right.bits == exact[j];
            assert(rows[i] == rows[j] && documents[i] == documents[j]);
        } else if fresh.contains(left) {
            let i = choose|i: int|
                0 <= i < before.graph_scores.items@.len() && before.graph_scores.items@[i]
                    == right;
            assert(before.graph_scores.items@[i].identity == left.identity);
        } else if fresh.contains(right) {
            let i = choose|i: int|
                0 <= i < before.graph_scores.items@.len() && before.graph_scores.items@[i] == left;
            assert(before.graph_scores.items@[i].identity == right.identity);
        }
    }
}

/// A score is kept bit for bit: behind a call that succeeded, another call on the
/// same rows, whatever scores it is handed, computes none, needs no room, and
/// returns those of the first.
pub proof fn lemma_kept_scores_are_read_back(
    before: PreparedVectorQuery,
    after: PreparedVectorQuery,
    source: RowSource,
    rows: Seq<usize>,
    documents: Seq<Option<DocumentVersion>>,
    exact: Seq<u64>,
    scores: Seq<u64>,
    accounting: Accounting,
    exact_again: Seq<u64>,
    scores_again: Seq<u64>,
)
    requires
        before.sorted == before.graph_scores.items@.len(),
        after.sorted == after.graph_scores.items@.len(),
        agree(before.graph_scores.items@),
        one_score_each(rows, documents, exact),
        scores.len() == rows.len(),
        scores_again.len() == rows.len(),
        after.graph_scores.items@ == ranked(
            before.graph_scores.items@ + before.new_scores(
                source,
                rows,
                documents,
                exact,
                rows.len(),
            ),
        ),
        forall|i: int|
            0 <= i < rows.len() ==> before.score_of(
                source,
                #[trigger] rows[i],
                documents[i],
                exact[i],
                scores[i],
            ),
        forall|i: int|
            0 <= i < rows.len() ==> after.score_of(
                source,
                #[trigger] rows[i],
                documents[i],
                exact_again[i],
                scores_again[i],
            ),
    ensures
        scores_again == scores,
        after.unread_rows(source, rows, documents, rows.len()) == 0,
        after.room_after(accounting, source, rows, documents, None, rows.len()) == Ok::<
            ScoreRoom,
            QueryError,
        >(after.room(accounting)),
        agree(after.graph_scores.items@),
{
    let kept = after.graph_scores.items@;
    lemma_kept_scores_agree(before, after, source, rows, documents, exact);
    lemma_kept_scores(before, source, rows, documents, exact, kept);
    lemma_new_scores_are_of_rows(before, source, rows, documents, exact, rows.len());
    assert forall|i: int| 0 <= i < rows.len() implies scores_again[i] == scores[i]
        && !after.unread(
        PreparedVectorQuery::identity_at(source, #[trigger] rows[i], documents[i], None)->Ok_0,
    ) by {
        assert(before.score_of(source, rows[i], documents[i], exact[i], scores[i]));
        assert(after.score_of(source, rows[i], documents[i], exact_again[i], scores_again[i]));
        let identity = PreparedVectorQuery::identity_at(
            source,
            rows[i],
            documents[i],
            None,
        )->Ok_0;
        let first = GraphExactScore { identity, bits: scores[i] };
        if before.readable(identity, scores[i]) {
            let j = choose|j: int|
                0 <= j < before.sorted && (#[trigger] before.graph_scores.items@[j]) == first;
            assert(before.graph_scores.items@.contains(first));
        }
        assert(kept.contains(first));
        let place = choose|place: int| 0 <= place < kept.len() && kept[place] == first;
        assert(kept[place].identity == identity);
        assert(!after.unread(identity));
        let second = GraphExactScore { identity, bits: scores_again[i] };
        let j = choose|j: int| 0 <= j < after.sorted && (#[trigger] kept[j]) == second;
        assert(kept.contains(second));
    }
    assert forall|i: int| 0 <= i < scores.len() implies scores_again[i] == scores[i] by {
        assert(before.score_of(source, rows[i], documents[i], exact[i], scores[i]));
    }
    assert(scores_again == scores);
    lemma_nothing_is_unread(after, accounting, source, rows, documents, rows.len());
}

proof fn lemma_nothing_is_unread(
    prepared: PreparedVectorQuery,
    accounting: Accounting,
    source: RowSource,
    rows: Seq<usize>,
    documents: Seq<Option<DocumentVersion>>,
    n: nat,
)
    requires
        n <= rows.len(),
        forall|i: int|
            0 <= i < rows.len() ==> (PreparedVectorQuery::identity_at(
                source,
                #[trigger] rows[i],
                documents[i],
                None,
            ) matches Ok(identity) && !prepared.unread(identity)),
    ensures
        prepared.unread_rows(source, rows, documents, n) == 0,
        prepared.room_after(accounting, source, rows, documents, None, n) == Ok::<
            ScoreRoom,
            QueryError,
        >(prepared.room(accounting)),
    decreases n,
{
    if n > 0 {
        lemma_nothing_is_unread(prepared, accounting, source, rows, documents, (n - 1) as nat);
        assert(rows[n - 1] == rows[(n - 1) as int]);
    }
}

} // verus!
