//! Typed metadata of single rows and sources, read through a handle.

use crate::error::Geometry;
use crate::error::SegmentError;
use crate::error::StoreError;
use crate::exhaustive::live_indices;
use crate::ids::GlobalRowId;
use crate::ids::RowSource;
use crate::ids::SegmentId;
use crate::score::Double;
use crate::store::Store;
use vstd::prelude::*;

verus! {

/// One typed value.
#[derive(Clone, Debug, PartialEq, Eq)]
pub enum PredicateValue {
    U64(u64),
    I64(i64),
    F64(Double),
    Bool(bool),
    String(String),
}

impl PredicateValue {
    /// The same value; texts by their characters.
    pub open spec fn same(self, other: PredicateValue) -> bool {
        match (self, other) {
            (PredicateValue::String(left), PredicateValue::String(right)) => left@ == right@,
            (PredicateValue::String(_), _) => false,
            (_, PredicateValue::String(_)) => false,
            _ => self == other,
        }
    }

    fn duplicate(&self) -> (copy: PredicateValue)
        ensures
            copy.same(*self),
    {
        match self {
            PredicateValue::U64(value) => PredicateValue::U64(*value),
            PredicateValue::I64(value) => PredicateValue::I64(*value),
            PredicateValue::F64(value) => PredicateValue::F64(*value),
            PredicateValue::Bool(value) => PredicateValue::Bool(*value),
            PredicateValue::String(text) => PredicateValue::String(text.clone()),
        }
    }
}

/// A column and the value that a row has in it, where it has one.
#[derive(Clone, Debug, PartialEq, Eq)]
pub struct ColumnValue {
    pub column: u32,
    pub value: Option<PredicateValue>,
}

/// A value that a row was written with.
#[derive(Clone, Debug, PartialEq, Eq)]
pub struct WrittenValue {
    pub column: u32,
    pub value: PredicateValue,
}

/// Metadata of the active segment.
#[derive(Debug)]
pub struct ActiveMetadata {
    /// Declared columns.
    pub schema: Vec<u32>,
    /// The column that holds the timestamp of a row.
    pub timestamp_column: u32,
    pub timestamps: Vec<i64>,
}

/// One column of a sealed segment, row by row.
#[derive(Debug)]
pub struct SealedColumn {
    pub column: u32,
    pub values: Vec<Option<PredicateValue>>,
}

/// Columns of a sealed segment.
#[derive(Debug)]
pub struct SealedColumns {
    pub row_count: u32,
    /// Declared columns.
    pub schema: Vec<u32>,
    pub columns: Vec<SealedColumn>,
}

/// A sealed segment with its columns, or why they cannot be read.
#[derive(Debug)]
pub struct SealedMetadata {
    pub id: SegmentId,
    pub columns: Result<SealedColumns, SegmentError>,
}

/// The same entry: the same column, and the same value or none.
pub open spec fn same_entry(left: ColumnValue, column: u32, value: Option<PredicateValue>) -> bool {
    &&& left.column == column
    &&& match (left.value, value) {
        (Some(one), Some(other)) => one.same(other),
        (None, None) => true,
        _ => false,
    }
}

/// The first value written to a column, from `at` on.
pub open spec fn written_to(values: Seq<WrittenValue>, column: u32, at: nat) -> Option<
    PredicateValue,
>
    decreases values.len() - at,
{
    if at >= values.len() {
        None
    } else if values[at as int].column == column {
        Some(values[at as int].value)
    } else {
        written_to(values, column, at + 1)
    }
}

fn find_written(values: &Vec<WrittenValue>, column: u32) -> (value: Option<PredicateValue>)
    ensures
        match (value, written_to(values@, column, 0)) {
            (Some(found), Some(expected)) => found.same(expected),
            (None, None) => true,
            _ => false,
        },
{
    let mut at: usize = 0;
    while at < values.len()
        invariant
            at <= values@.len(),
            written_to(values@, column, 0) == written_to(values@, column, at as nat),
        decreases values.len() - at,
    {
        if values[at].column == column {
            return Some(values[at].value.duplicate());
        }
        at = at + 1;
    }
    None
}

/// What an active row shows: for each declared column the value that was
/// written to it; the timestamp counts as written last.
pub open spec fn active_row(
    entries: Seq<ColumnValue>,
    schema: Seq<u32>,
    values: Seq<WrittenValue>,
) -> bool {
    &&& entries.len() == schema.len()
    &&& forall|i: int|
        0 <= i < schema.len() ==> same_entry(
            #[trigger] entries[i],
            schema[i],
            written_to(values, schema[i], 0),
        )
}

/// The first sealed column with this id, from `at` on.
pub open spec fn column_named(columns: Seq<SealedColumn>, column: u32, at: nat) -> Option<
    SealedColumn,
>
    decreases columns.len() - at,
{
    if at >= columns.len() {
        None
    } else if columns[at as int].column == column {
        Some(columns[at as int])
    } else {
        column_named(columns, column, at + 1)
    }
}

/// The value of a row in a column.
pub open spec fn value_at(values: Seq<Option<PredicateValue>>, row: nat) -> Option<PredicateValue> {
    if row < values.len() {
        values[row as int]
    } else {
        None
    }
}

/// What a sealed row shows, column by column in declared order.
pub open spec fn sealed_row(
    entries: Seq<ColumnValue>,
    columns: SealedColumns,
    row: u32,
) -> bool {
    &&& entries.len() == columns.schema@.len()
    &&& forall|i: int|
        0 <= i < columns.schema@.len() ==> sealed_entry(
            #[trigger] entries[i],
            columns,
            columns.schema@[i],
            row,
        )
}

/// What a sealed row shows in one declared column.
pub open spec fn sealed_entry(
    entry: ColumnValue,
    columns: SealedColumns,
    column: u32,
    row: u32,
) -> bool {
    column_named(columns.columns@, column, 0) matches Some(found) && same_entry(
        entry,
        column,
        value_at(found.values@, row as nat),
    )
}

/// The first declared column that a segment does not hold is at `at`.
pub open spec fn first_missing(columns: SealedColumns, at: int) -> bool {
    &&& 0 <= at < columns.schema@.len()
    &&& column_named(columns.columns@, columns.schema@[at], 0) is None
    &&& forall|i: int|
        0 <= i < at ==> column_named(columns.columns@, #[trigger] columns.schema@[i], 0) is Some
}

fn sealed_value(columns: &SealedColumns, column: u32, row: u32) -> (value: Option<
    Option<PredicateValue>,
>)
    ensures
        match (value, column_named(columns.columns@, column, 0)) {
            (None, None) => true,
            (Some(shown), Some(found)) => same_entry(
                ColumnValue { column, value: shown },
                column,
                value_at(found.values@, row as nat),
            ),
            _ => false,
        },
{
    let mut at: usize = 0;
    while at < columns.columns.len()
        invariant
            at <= columns.columns@.len(),
            column_named(columns.columns@, column, 0) == column_named(
                columns.columns@,
                column,
                at as nat,
            ),
        decreases columns.columns.len() - at,
    {
        if columns.columns[at].column == column {
            let values = &columns.columns[at].values;
            let place: usize = row as usize;
            if place < values.len() {
                return match &values[place] {
                    Some(value) => Some(Some(value.duplicate())),
                    None => Some(None),
                };
            }
            return Some(None);
        }
        at = at + 1;
    }
    None
}

/// Reads a sealed row.
pub fn sealed_row_values(columns: &SealedColumns, row: u32) -> (result: Result<
    Vec<ColumnValue>,
    StoreError,
>)
    ensures
        if row >= columns.row_count {
            result == Err::<Vec<ColumnValue>, StoreError>(
                StoreError::Segment(
                    SegmentError::Geometry(
                        Geometry::MetadataRowOutside { row, rows: columns.row_count },
                    ),
                ),
            )
        } else {
            match result {
                Ok(entries) => sealed_row(entries@, *columns, row),
                Err(error) => exists|at: int|
                    #![trigger columns.schema@[at]]
                    first_missing(*columns, at) && error == StoreError::Segment(
                        SegmentError::Geometry(
                            Geometry::MetadataColumnMissing(columns.schema@[at]),
                        ),
                    ),
            }
        },
{
    if row >= columns.row_count {
        return Err(
            StoreError::Segment(
                SegmentError::Geometry(
                    Geometry::MetadataRowOutside { row, rows: columns.row_count },
                ),
            ),
        );
    }
    let mut entries: Vec<ColumnValue> = Vec::with_capacity(columns.schema.len());
    let mut at: usize = 0;
    while at < columns.schema.len()
        invariant
            at <= columns.schema@.len(),
            row < columns.row_count,
            entries@.len() == at,
            forall|i: int|
                0 <= i < at ==> sealed_entry(
                    #[trigger] entries@[i],
                    *columns,
                    columns.schema@[i],
                    row,
                ),
        decreases columns.schema.len() - at,
    {
        let column: u32 = columns.schema[at];
        match sealed_value(columns, column, row) {
            Some(value) => {
                entries.push(ColumnValue { column, value });
            },
            None => {
                assert forall|i: int| 0 <= i < at implies column_named(
                    columns.columns@,
                    #[trigger] columns.schema@[i],
                    0,
                ) is Some by {
                    assert(sealed_entry(entries@[i], *columns, columns.schema@[i], row));
                }
                assert(first_missing(*columns, at as int));
                return Err(
                    StoreError::Segment(
                        SegmentError::Geometry(Geometry::MetadataColumnMissing(column)),
                    ),
                );
            },
        }
        at = at + 1;
    }
    Ok(entries)
}

/// The first sealed segment with this id, from `at` on.
pub open spec fn sealed_named(sealed: Seq<SealedMetadata>, id: SegmentId, at: nat) -> Option<
    SealedMetadata,
>
    decreases sealed.len() - at,
{
    if at >= sealed.len() {
        None
    } else if sealed[at as int].id == id {
        Some(sealed[at as int])
    } else {
        sealed_named(sealed, id, at + 1)
    }
}

fn find_sealed(sealed: &Vec<SealedMetadata>, id: SegmentId) -> (found: Option<usize>)
    ensures
        match found {
            Some(at) => at < sealed@.len() && sealed_named(sealed@, id, 0) == Some(
                sealed@[at as int],
            ),
            None => sealed_named(sealed@, id, 0) is None,
        },
{
    let mut at: usize = 0;
    while at < sealed.len()
        invariant
            at <= sealed@.len(),
            sealed_named(sealed@, id, 0) == sealed_named(sealed@, id, at as nat),
        decreases sealed.len() - at,
    {
        if sealed[at].id == id {
            return Some(at);
        }
        at = at + 1;
    }
    None
}

/// A source's rows, live rows and matching rows.
#[derive(Debug)]
pub struct SourceEvaluation {
    pub row_count: u32,
    pub alive: Vec<u32>,
    pub matches: Vec<u32>,
}

/// What a source says of itself: how many rows its columns have and which of
/// its rows are alive.
#[derive(Debug)]
pub struct SourceFacts<E> {
    pub row_count: Result<u32, E>,
    pub alive: Result<Vec<bool>, E>,
}

/// A sealed segment that can be evaluated.
#[derive(Debug)]
pub struct SealedSource {
    pub id: SegmentId,
    pub facts: SourceFacts<SegmentError>,
}

/// The first sealed source with this id, from `at` on.
pub open spec fn source_named(sealed: Seq<SealedSource>, id: SegmentId, at: nat) -> Option<
    SealedSource,
>
    decreases sealed.len() - at,
{
    if at >= sealed.len() {
        None
    } else if sealed[at as int].id == id {
        Some(sealed[at as int])
    } else {
        source_named(sealed, id, at + 1)
    }
}

fn find_source(sealed: &Vec<SealedSource>, id: SegmentId) -> (found: Option<usize>)
    ensures
        match found {
            Some(at) => at < sealed@.len() && source_named(sealed@, id, 0) == Some(
                sealed@[at as int],
            ),
            None => source_named(sealed@, id, 0) is None,
        },
{
    let mut at: usize = 0;
    while at < sealed.len()
        invariant
            at <= sealed@.len(),
            source_named(sealed@, id, 0) == source_named(sealed@, id, at as nat),
        decreases sealed.len() - at,
    {
        if sealed[at].id == id {
            return Some(at);
        }
        at = at + 1;
    }
    None
}

/// What evaluating a source comes to: the columns come first, then the live
/// rows, then the predicate.
pub open spec fn evaluated(
    result: Result<SourceEvaluation, StoreError>,
    row_count: Result<u32, StoreError>,
    alive: Result<Seq<bool>, StoreError>,
    matches: Result<Seq<u32>, Seq<char>>,
) -> bool {
    match (row_count, alive, matches) {
        (Err(error), _, _) => result == Err::<SourceEvaluation, StoreError>(error),
        (_, Err(error), _) => result == Err::<SourceEvaluation, StoreError>(error),
        (_, _, Err(text)) => result matches Err(
            StoreError::Segment(SegmentError::Columns(words)),
        ) && words@ == "test metadata source evaluation: "@ + text,
        (Ok(rows), Ok(live), Ok(hits)) => result matches Ok(evaluation) && evaluation.row_count
            == rows && evaluation.alive@ == live_indices(live, live.len())
            && evaluation.matches@ == hits,
    }
}

fn evaluate_source(
    row_count: Result<u32, StoreError>,
    alive: Result<Vec<bool>, StoreError>,
    matches: Result<Vec<u32>, String>,
) -> (result: Result<SourceEvaluation, StoreError>)
    requires
        alive is Ok ==> alive->Ok_0@.len() <= u32::MAX,
    ensures
        evaluated(
            result,
            row_count,
            match alive {
                Ok(live) => Ok(live@),
                Err(error) => Err(error),
            },
            match matches {
                Ok(hits) => Ok(hits@),
                Err(text) => Err(text@),
            },
        ),
{
    let rows: u32 = match row_count {
        Ok(rows) => rows,
        Err(error) => {
            return Err(error);
        },
    };
    let live = match alive {
        Ok(live) => live,
        Err(error) => {
            return Err(error);
        },
    };
    let hits = match matches {
        Ok(hits) => hits,
        Err(text) => {
            let mut words = "test metadata source evaluation: ".to_owned();
            words.append(text.as_str());
            return Err(StoreError::Segment(SegmentError::Columns(words)));
        },
    };
    let mut indices: Vec<u32> = Vec::new();
    let mut at: usize = 0;
    while at < live.len()
        invariant
            at <= live@.len() <= u32::MAX,
            indices@ == live_indices(live@, at as nat),
        decreases live.len() - at,
    {
        if live[at] {
            indices.push(at as u32);
        }
        at = at + 1;
    }
    Ok(SourceEvaluation { row_count: rows, alive: indices, matches: hits })
}

impl Store {
    /// Reads the typed metadata of one row. `written` is what the active row
    /// was written with, or why that cannot be read.
    pub fn test_metadata_row_values(
        &self,
        row_id: GlobalRowId,
        active: &ActiveMetadata,
        written: Result<Vec<WrittenValue>, StoreError>,
        sealed: Vec<SealedMetadata>,
    ) -> (result: Result<Vec<ColumnValue>, StoreError>)
        ensures
            match row_id.source {
                RowSource::Active => if self.active is None {
                    result == Err::<Vec<ColumnValue>, StoreError>(StoreError::Closed)
                } else if row_id.local_row >= active.timestamps@.len() {
                    result == Err::<Vec<ColumnValue>, StoreError>(StoreError::ActiveRowOverflow)
                } else {
                    match written {
                        Err(error) => result == Err::<Vec<ColumnValue>, StoreError>(error),
                        Ok(values) => result matches Ok(entries) && active_row(
                            entries@,
                            active.schema@,
                            values@.push(
                                WrittenValue {
                                    column: active.timestamp_column,
                                    value: PredicateValue::I64(
                                        active.timestamps@[row_id.local_row as int],
                                    ),
                                },
                            ),
                        ),
                    }
                },
                RowSource::Sealed(id) => match self.lease_answer() {
                    Err(error) => result == Err::<Vec<ColumnValue>, StoreError>(error),
                    Ok(_) => match sealed_named(sealed@, id, 0) {
                        None => result == Err::<Vec<ColumnValue>, StoreError>(
                            StoreError::Segment(
                                SegmentError::Geometry(Geometry::MetadataRowSegmentAbsent(id)),
                            ),
                        ),
                        Some(segment) => match segment.columns {
                            Err(error) => result == Err::<Vec<ColumnValue>, StoreError>(
                                StoreError::Segment(error),
                            ),
                            Ok(columns) => if row_id.local_row >= columns.row_count {
                                result == Err::<Vec<ColumnValue>, StoreError>(
                                    StoreError::Segment(
                                        SegmentError::Geometry(
                                            Geometry::MetadataRowOutside {
                                                row: row_id.local_row,
                                                rows: columns.row_count,
                                            },
                                        ),
                                    ),
                                )
                            } else {
                                match result {
                                    Ok(entries) => sealed_row(entries@, columns, row_id.local_row),
                                    Err(error) => exists|at: int|
                                        #![trigger columns.schema@[at]]
                                        first_missing(columns, at) && error
                                            == StoreError::Segment(
                                            SegmentError::Geometry(
                                                Geometry::MetadataColumnMissing(
                                                    columns.schema@[at],
                                                ),
                                            ),
                                        ),
                                }
                            },
                        },
                    },
                },
            },
    {
        match row_id.source {
            RowSource::Active => {
                if self.active.is_none() {
                    return Err(StoreError::Closed);
                }
                let row: usize = row_id.local_row as usize;
                if row >= active.timestamps.len() {
                    return Err(StoreError::ActiveRowOverflow);
                }
                let mut values = match written {
                    Ok(values) => values,
                    Err(error) => {
                        return Err(error);
                    },
                };
                values.push(
                    WrittenValue {
                        column: active.timestamp_column,
                        value: PredicateValue::I64(active.timestamps[row]),
                    },
                );
                let mut entries: Vec<ColumnValue> = Vec::with_capacity(active.schema.len());
                let mut at: usize = 0;
                while at < active.schema.len()
                    invariant
                        at <= active.schema@.len(),
                        entries@.len() == at,
                        forall|i: int|
                            0 <= i < at ==> same_entry(
                                #[trigger] entries@[i],
                                active.schema@[i],
                                written_to(values@, active.schema@[i], 0),
                            ),
                    decreases active.schema.len() - at,
                {
                    let column: u32 = active.schema[at];
                    entries.push(ColumnValue { column, value: find_written(&values, column) });
                    at = at + 1;
                }
                Ok(entries)
            },
            RowSource::Sealed(id) => {
                self.snapshot()?;
                match find_sealed(&sealed, id) {
                    None => Err(
                        StoreError::Segment(
                            SegmentError::Geometry(Geometry::MetadataRowSegmentAbsent(id)),
                        ),
                    ),
                    Some(at) => {
                        let mut found = sealed;
                        let segment = found.remove(at);
                        match segment.columns {
                            Err(error) => Err(StoreError::Segment(error)),
                            Ok(columns) => sealed_row_values(&columns, row_id.local_row),
                        }
                    },
                }
            },
        }
    }

    /// Evaluates a predicate on one source; `matches` holds the rows that it
    /// selects, or why it could not be evaluated.
    pub fn test_metadata_evaluate_source(
        &self,
        source: RowSource,
        active: SourceFacts<StoreError>,
        sealed: Vec<SealedSource>,
        matches: Result<Vec<u32>, String>,
    ) -> (result: Result<SourceEvaluation, StoreError>)
        requires
            active.alive is Ok ==> active.alive->Ok_0@.len() <= u32::MAX,
            forall|i: int|
                0 <= i < sealed@.len() && (#[trigger] sealed@[i]).facts.alive is Ok
                    ==> sealed@[i].facts.alive->Ok_0@.len() <= u32::MAX,
        ensures
            ({
                let selected = match matches {
                    Ok(hits) => Ok(hits@),
                    Err(text) => Err(text@),
                };
                match source {
                    RowSource::Active => if self.active is None {
                        result == Err::<SourceEvaluation, StoreError>(StoreError::Closed)
                    } else {
                        evaluated(
                            result,
                            active.row_count,
                            match active.alive {
                                Ok(live) => Ok(live@),
                                Err(error) => Err(error),
                            },
                            selected,
                        )
                    },
                    RowSource::Sealed(id) => match self.lease_answer() {
                        Err(error) => result == Err::<SourceEvaluation, StoreError>(error),
                        Ok(_) => match source_named(sealed@, id, 0) {
                            None => result == Err::<SourceEvaluation, StoreError>(
                                StoreError::Segment(
                                    SegmentError::Geometry(
                                        Geometry::MetadataSourceSegmentAbsent(id),
                                    ),
                                ),
                            ),
                            Some(found) => evaluated(
                                result,
                                match found.facts.row_count {
                                    Ok(rows) => Ok(rows),
                                    Err(error) => Err(StoreError::Segment(error)),
                                },
                                match found.facts.alive {
                                    Ok(live) => Ok(live@),
                                    Err(error) => Err(StoreError::Segment(error)),
                                },
                                selected,
                            ),
                        },
                    },
                }
            }),
    {
        match source {
            RowSource::Active => {
                if self.active.is_none() {
                    return Err(StoreError::Closed);
                }
                evaluate_source(active.row_count, active.alive, matches)
            },
            RowSource::Sealed(id) => {
                self.snapshot()?;
                match find_source(&sealed, id) {
                    None => Err(
                        StoreError::Segment(
                            SegmentError::Geometry(Geometry::MetadataSourceSegmentAbsent(id)),
                        ),
                    ),
                    Some(at) => {
                        let mut all = sealed;
                        let found = all.remove(at);
                        let row_count = match found.facts.row_count {
                            Ok(rows) => Ok(rows),
                            Err(error) => Err(StoreError::Segment(error)),
                        };
                        let alive = match found.facts.alive {
                            Ok(live) => Ok(live),
                            Err(error) => Err(StoreError::Segment(error)),
                        };
                        evaluate_source(row_count, alive, matches)
                    },
                }
            },
        }
    }
}

} // verus!
