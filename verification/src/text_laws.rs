//! What reading the text and the metadata of a result answers, in terms of the rows
//! that hold them.

use crate::candidates::SearchCandidate;
use crate::candidates::StructuredLexicalSource;
use crate::corpus::ActiveFacts;
use crate::corpus::SegmentFacts;
use crate::error::StoreError;
use crate::exhaustive::live_indices;
use crate::ids::DocId;
use crate::ids::DocumentVersion;
use crate::ids::GlobalDocId;
use crate::ids::GlobalRowId;
use crate::ids::RowSource;
use crate::ids::SegmentId;
use crate::lexical::StoreLexicalError;
use crate::materialize::current_row;
use crate::materialize::hybrid_address;
use crate::materialize::lexical_address;
use crate::materialize::row_of_hit;
use crate::materialize::sealed_version_text;
use crate::materialize::segment_with;
use crate::materialize::text_of_address;
use crate::materialize::vector_address;
use crate::materialize::version_row;
use crate::materialize::version_text;
use crate::materialize::MaterializationError;
use crate::materialize::MaterializedRow;
use crate::materialize::QueryMaterializer;
use crate::materialize::ResultAddress;
use crate::materialize::StoredTextFault;
use crate::metadata::active_row;
use crate::metadata::column_named;
use crate::metadata::sealed_named;
use crate::metadata::sealed_row;
use crate::metadata::sealed_row_values;
use crate::metadata::source_named;
use crate::metadata::written_to;
use crate::metadata::ActiveMetadata;
use crate::metadata::ColumnValue;
use crate::metadata::PredicateValue;
use crate::metadata::SealedColumns;
use crate::metadata::SealedMetadata;
use crate::metadata::SealedSource;
use crate::metadata::SourceEvaluation;
use crate::metadata::SourceFacts;
use crate::metadata::WrittenValue;
use crate::poll::StopPoll;
use crate::poll::StopSource;
use crate::round::AddressEntry;
use crate::store::Store;
use crate::vector_laws::lemma_live_rows_are_the_rows_marked_alive;
use vstd::prelude::*;

verus! {

proof fn lemma_current_row_is_the_last_of_its_key(
    documents: Seq<Option<DocumentVersion>>,
    key: DocId,
    n: nat,
)
    requires
        n <= documents.len(),
    ensures
        current_row(documents, key, n) matches Some(row) ==> {
            &&& row < n
            &&& documents[row as int] matches Some(held) && held.doc_id == key
            &&& forall|later: int|
                row < later < n ==> !(#[trigger] documents[later] matches Some(held)
                    && held.doc_id == key)
        },
        current_row(documents, key, n) is None ==> forall|row: int|
            0 <= row < n ==> !(#[trigger] documents[row] matches Some(held) && held.doc_id == key),
    decreases n,
{
    if n > 0 {
        lemma_current_row_is_the_last_of_its_key(documents, key, (n - 1) as nat);
    }
}

proof fn lemma_version_row_is_the_first_of_the_version(
    documents: Seq<Option<DocumentVersion>>,
    version: DocumentVersion,
    at: nat,
)
    ensures
        version_row(documents, version, at) matches Some(row) ==> {
            &&& at <= row < documents.len()
            &&& documents[row as int] == Some(version)
            &&& forall|i: int| at <= i < row ==> #[trigger] documents[i] != Some(version)
        },
        version_row(documents, version, at) is None ==> forall|i: int|
            at <= i < documents.len() ==> #[trigger] documents[i] != Some(version),
    decreases documents.len() - at,
{
    if at < documents.len() {
        lemma_version_row_is_the_first_of_the_version(documents, version, at + 1);
    }
}

/// Whether a row is the last one that the active segment holds of a document.
pub open spec fn is_last_of_its_key(
    documents: Seq<Option<DocumentVersion>>,
    row: int,
    key: DocId,
) -> bool {
    &&& 0 <= row < documents.len()
    &&& documents[row] matches Some(held) && held.doc_id == key
    &&& forall|later: int|
        row < later < documents.len() ==> !(#[trigger] documents[later] matches Some(held)
            && held.doc_id == key)
}

/// Whether a segment holds a revision, first at one row.
pub open spec fn first_holds(segment: SegmentFacts, row: int, version: DocumentVersion) -> bool {
    &&& 0 <= row < segment.documents@.len()
    &&& segment.documents@[row] == Some(version)
    &&& forall|i: int| 0 <= i < row ==> #[trigger] segment.documents@[i] != Some(version)
}

/// Whether a segment holds no row of a revision.
pub open spec fn lacks(segment: SegmentFacts, version: DocumentVersion) -> bool {
    forall|i: int|
        0 <= i < segment.documents@.len() ==> #[trigger] segment.documents@[i] != Some(version)
}

/// The text that a segment stores at one row, where it stores one.
pub open spec fn stored_at(texts: Seq<Option<String>>, row: int) -> Option<String> {
    if 0 <= row < texts.len() {
        texts[row]
    } else {
        None
    }
}

proof fn lemma_sealed_text_is_that_of_the_first_row(
    segments: Seq<SegmentFacts>,
    version: DocumentVersion,
    at: nat,
    ordinal: int,
    row: int,
)
    requires
        at <= ordinal < segments.len(),
        first_holds(segments[ordinal], row, version),
        forall|i: int| at <= i < ordinal ==> lacks(#[trigger] segments[i], version),
    ensures
        sealed_version_text(segments, version, None, at) == Ok::<Option<String>, StoreError>(
            match segments[ordinal].texts {
                Some(texts) => stored_at(texts@, row),
                None => None,
            },
        ),
    decreases ordinal - at,
{
    lemma_version_row_is_the_first_of_the_version(segments[at as int].documents@, version, 0);
    if at < ordinal {
        assert(lacks(segments[at as int], version));
        if let Some(found) = version_row(segments[at as int].documents@, version, 0) {
            assert(segments[at as int].documents@[found as int] != Some(version));
        }
        lemma_sealed_text_is_that_of_the_first_row(segments, version, at + 1, ordinal, row);
    } else {
        match version_row(segments[at as int].documents@, version, 0) {
            Some(found) => {
                if found < row {
                    assert(segments[ordinal].documents@[found as int] != Some(version));
                } else if row < found {
                    assert(segments[ordinal].documents@[row] != Some(version));
                }
            },
            None => {
                assert(segments[ordinal].documents@[row] != Some(version));
            },
        }
    }
}

proof fn lemma_no_sealed_row_no_text(
    segments: Seq<SegmentFacts>,
    version: DocumentVersion,
    at: nat,
)
    requires
        forall|i: int| at <= i < segments.len() ==> lacks(#[trigger] segments[i], version),
    ensures
        sealed_version_text(segments, version, None, at) == Ok::<Option<String>, StoreError>(None),
    decreases segments.len() - at,
{
    if at < segments.len() {
        lemma_version_row_is_the_first_of_the_version(segments[at as int].documents@, version, 0);
        assert(lacks(segments[at as int], version));
        if let Some(found) = version_row(segments[at as int].documents@, version, 0) {
            assert(segments[at as int].documents@[found as int] != Some(version));
        }
        lemma_no_sealed_row_no_text(segments, version, at + 1);
    }
}

/// Whether an answer is the text that a row stores, or that there is none.
pub open spec fn answers_with(
    result: Result<Option<String>, StoreLexicalError>,
    stored: Option<String>,
) -> bool {
    match stored {
        Some(text) => result matches Ok(Some(copy)) && copy@ == text@,
        None => result == Ok::<Option<String>, StoreLexicalError>(None),
    }
}

/// The stored text of a revision is the text of the very row that holds it: the active
/// row, where the revision stands at the last row of its document, and otherwise the
/// first row of the first sealed segment that holds it. A revision that no row holds
/// has no text.
pub proof fn lemma_stored_text_is_that_of_its_own_row(
    store: &mut Store,
    segments: &Vec<SegmentFacts>,
    active: &ActiveFacts,
    version: DocumentVersion,
    row: int,
    ordinal: int,
    result: Result<Option<String>, StoreLexicalError>,
)
    requires
        call_ensures(Store::stored_text, (store, segments, active, version, None), result),
        old(store).lease_answer() is Ok,
    ensures
        *final(store) == *old(store),
        is_last_of_its_key(active.documents@, row, version.doc_id) && active.documents@[row] == Some(
            version,
        ) ==> answers_with(result, stored_at(active.texts@, row)),
        ({
            let elsewhere = (is_last_of_its_key(active.documents@, row, version.doc_id)
                && active.documents@[row] != Some(version)) || (forall|i: int|
                0 <= i < active.documents@.len() ==> !(#[trigger] active.documents@[i] matches Some(
                    held,
                ) && held.doc_id == version.doc_id));
            &&& elsewhere && (forall|i: int|
                0 <= i < segments@.len() ==> lacks(#[trigger] segments@[i], version))
                ==> answers_with(result, None)
            &&& forall|sealed: int|
                elsewhere && 0 <= ordinal < segments@.len() && #[trigger] first_holds(
                    segments@[ordinal],
                    sealed,
                    version,
                ) && (forall|i: int| 0 <= i < ordinal ==> lacks(#[trigger] segments@[i], version))
                    ==> answers_with(
                    result,
                    match segments@[ordinal].texts {
                        Some(texts) => stored_at(texts@, sealed),
                        None => None,
                    },
                )
        }),
{
    let documents = active.documents@;
    lemma_current_row_is_the_last_of_its_key(documents, version.doc_id, documents.len());
    let current = current_row(documents, version.doc_id, documents.len());
    if is_last_of_its_key(documents, row, version.doc_id) {
        assert(current == Some(row as nat)) by {
            match current {
                Some(found) => {
                    if found < row {
                        assert(!(documents[row] matches Some(held) && held.doc_id
                            == version.doc_id));
                    } else if row < found {
                        assert(!(documents[found as int] matches Some(held) && held.doc_id
                            == version.doc_id));
                    }
                },
                None => {
                    assert(!(documents[row] matches Some(held) && held.doc_id == version.doc_id));
                },
            }
        }
    }
    let elsewhere = (is_last_of_its_key(documents, row, version.doc_id) && documents[row] != Some(
        version,
    )) || (forall|i: int|
        0 <= i < documents.len() ==> !(#[trigger] documents[i] matches Some(held) && held.doc_id
            == version.doc_id));
    if elsewhere {
        if let Some(found) = current {
            assert(documents[found as int] is Some);
        }
        assert(version_text(segments@, *active, version, None) == sealed_version_text(
            segments@,
            version,
            None,
            0,
        ));
        if forall|i: int| 0 <= i < segments@.len() ==> lacks(#[trigger] segments@[i], version) {
            lemma_no_sealed_row_no_text(segments@, version, 0);
        }
        assert forall|sealed: int|
            0 <= ordinal < segments@.len() && #[trigger] first_holds(
                segments@[ordinal],
                sealed,
                version,
            ) && (forall|i: int|
                0 <= i < ordinal ==> lacks(#[trigger] segments@[i], version)) implies answers_with(
            result,
            match segments@[ordinal].texts {
                Some(texts) => stored_at(texts@, sealed),
                None => None,
            },
        ) by {
            lemma_sealed_text_is_that_of_the_first_row(segments@, version, 0, ordinal, sealed);
        }
    }
}

/// A handle that admits no read answers no text.
pub proof fn lemma_no_text_without_admission(
    store: &mut Store,
    segments: &Vec<SegmentFacts>,
    active: &ActiveFacts,
    version: DocumentVersion,
    fault: Option<StoredTextFault>,
    result: Result<Option<String>, StoreLexicalError>,
)
    requires
        call_ensures(Store::stored_text, (store, segments, active, version, fault), result),
        old(store).lease_answer() is Err,
    ensures
        result is Err,
        *final(store) == *old(store),
{
}

/// The segment of an identity is the first that has it.
pub proof fn lemma_segment_with_is_the_first(
    segments: Seq<SegmentFacts>,
    id: SegmentId,
    at: nat,
)
    ensures
        segment_with(segments, id, at) matches Some(found) ==> exists|i: int|
            at <= i < segments.len() && found == #[trigger] segments[i] && is_segment(
                segments,
                id,
                at as int,
                i,
            ),
        segment_with(segments, id, at) is None ==> forall|i: int|
            at <= i < segments.len() ==> (#[trigger] segments[i]).id != id,
    decreases segments.len() - at,
{
    if at < segments.len() {
        if segments[at as int].id == id {
            assert(is_segment(segments, id, at as int, at as int));
        } else {
            lemma_segment_with_is_the_first(segments, id, at + 1);
            if let Some(found) = segment_with(segments, id, at + 1) {
                let i = choose|i: int|
                    at + 1 <= i < segments.len() && found == #[trigger] segments[i] && is_segment(
                        segments,
                        id,
                        (at + 1) as int,
                        i,
                    );
                assert(is_segment(segments, id, at as int, i));
                assert(found == segments[i]);
            }
        }
    }
}

/// Whether the first segment of an identity, from one place on, stands at another.
pub open spec fn is_segment(segments: Seq<SegmentFacts>, id: SegmentId, from: int, at: int) -> bool {
    &&& segments[at].id == id
    &&& forall|i: int| from <= i < at ==> (#[trigger] segments[i]).id != id
}

/// Whether the row of an address stores a text under the address's own document.
pub open spec fn row_holds(
    segments: Seq<SegmentFacts>,
    active: ActiveFacts,
    row_id: GlobalRowId,
    document: DocumentVersion,
    text: Seq<char>,
) -> bool {
    let row = row_id.local_row as int;
    match row_id.source {
        RowSource::Active => {
            &&& row < active.documents@.len() && active.documents@[row] == Some(document)
            &&& row < active.texts@.len() && (active.texts@[row] matches Some(stored) && stored@
                == text)
        },
        RowSource::Sealed(id) => exists|at: int|
            0 <= at < segments.len() && #[trigger] is_segment(segments, id, 0, at) && {
                let segment = segments[at];
                &&& row < segment.documents@.len() && segment.documents@[row] == Some(document)
                &&& segment.texts matches Some(texts) && row < texts@.len() && (
                texts@[row] matches Some(stored) && stored@ == text)
            },
    }
}

/// A text that an address reads stands in the row of the address, under its document.
pub proof fn lemma_address_text(
    segments: Seq<SegmentFacts>,
    active: ActiveFacts,
    address: ResultAddress,
)
    ensures
        text_of_address(segments, active, address, Ok(())) matches Ok(stored) ==> (
        address.document matches Some(document) && row_holds(
            segments,
            active,
            address.row_id,
            document,
            stored@,
        )),
{
    if let RowSource::Sealed(id) = address.row_id.source {
        lemma_segment_with_is_the_first(segments, id, 0);
        if let Some(found) = segment_with(segments, id, 0) {
            let at = choose|i: int|
                0 <= i < segments.len() && found == #[trigger] segments[i] && is_segment(
                    segments,
                    id,
                    0,
                    i,
                );
            assert(is_segment(segments, id, 0, at));
        }
    }
}

/// A text that is read for a result is the one that the result's own row stores, under
/// the very revision that was ranked; the answer names that row and that revision, and
/// the reading counts one lookup, one copy and the copy's bytes.
pub proof fn lemma_a_result_reads_its_own_text<S: StopSource>(
    materializer: &mut QueryMaterializer,
    segments: &Vec<SegmentFacts>,
    active: &ActiveFacts,
    address: Result<ResultAddress, MaterializationError>,
    read: Result<(), StoreError>,
    denied: bool,
    poll: &mut StopPoll<S>,
    result: Result<MaterializedRow, MaterializationError>,
)
    requires
        call_ensures(
            QueryMaterializer::text::<S>,
            (materializer, segments, active, address, read, denied, poll),
            result,
        ),
        result is Ok,
    ensures
        ({
            let row = result->Ok_0;
            let (before, after) = (old(materializer).counts, final(materializer).counts);
            &&& address matches Ok(place) && place.row_id == row.row_id && place.document == Some(
                row.document,
            )
            &&& read is Ok && !denied
            &&& row_holds(segments@, *active, row.row_id, row.document, row.text@)
            &&& after.row_lookups == before.row_lookups + 1
            &&& after.text_copies == before.text_copies + 1
            &&& after.text_bytes == before.text_bytes + vstd::utf8::encode_utf8(
                row.text@,
            ).len() as usize
            &&& final(materializer).cancellation == old(materializer).cancellation
        }),
{
    let place = address->Ok_0;
    lemma_address_text(segments@, *active, place);
    assert(old(materializer).answers(
        segments@,
        *active,
        address,
        read,
        denied,
        result,
        *final(materializer),
    ));
    assert(read is Ok);
    assert(old(materializer).request_failure(segments@, *active, place, read, denied) is None);
}

/// The address of a vector hit is that of the candidate at its rank.
pub proof fn lemma_a_vector_hit_has_its_own_address(
    candidates: &Vec<SearchCandidate>,
    rank: usize,
    result: Result<ResultAddress, MaterializationError>,
)
    requires
        call_ensures(vector_address, (candidates, rank), result),
    ensures
        match result {
            Ok(address) => rank < candidates@.len() && address.row_id
                == candidates@[rank as int].row_id && address.document
                == candidates@[rank as int].document,
            Err(error) => rank >= candidates@.len() && error == (
            MaterializationError::RankOutOfRange { rank, returned: candidates@.len() as usize }),
        },
{
}

/// The address of a lexical hit is the row that the hit names, in the source that it
/// stands for, under the document that was answered at its rank.
pub proof fn lemma_a_lexical_hit_has_its_own_address(
    segments: &Vec<SegmentFacts>,
    sources: &Vec<StructuredLexicalSource>,
    documents: &Vec<DocumentVersion>,
    hits: &Vec<GlobalDocId>,
    rank: usize,
    result: Result<ResultAddress, MaterializationError>,
)
    requires
        call_ensures(lexical_address, (segments, sources, documents, hits, rank), result),
    ensures
        result matches Ok(address) ==> {
            let hit = hits@[rank as int];
            &&& rank < hits@.len() && rank < documents@.len()
            &&& address.document == Some(documents@[rank as int])
            &&& address.row_id.local_row == hit.row
            &&& hit.segment < sources@.len()
            &&& match sources@[hit.segment as int] {
                StructuredLexicalSource::Active => address.row_id.source == RowSource::Active,
                StructuredLexicalSource::Sealed(ordinal) => ordinal < segments@.len()
                    && address.row_id.source == RowSource::Sealed(segments@[ordinal as int].id),
            }
        },
        rank < hits@.len() && rank < documents@.len() && hits@[rank as int].segment < sources@.len()
            && (sources@[hits@[rank as int].segment as int] matches StructuredLexicalSource::Sealed(
            ordinal,
        ) ==> ordinal < segments@.len()) ==> result is Ok,
{
    if rank < hits@.len() {
        assert(row_of_hit(segments@, sources@, hits@[rank as int]) == row_of_hit(
            segments@,
            sources@,
            hits@[rank as int],
        ));
    }
}

/// The address of a fused hit is the one that was kept under its key.
pub proof fn lemma_a_fused_hit_has_its_own_address(
    hits: &Vec<DocId>,
    addresses: &Option<Vec<AddressEntry>>,
    rank: usize,
    result: Result<ResultAddress, MaterializationError>,
)
    requires
        call_ensures(hybrid_address, (hits, addresses, rank), result),
    ensures
        match result {
            Ok(address) => rank < hits@.len() && (*addresses matches Some(entries) && exists|i: int|
                0 <= i < entries@.len() && (#[trigger] entries@[i]).key == hits@[rank as int]
                    && entries@[i].row_id == address.row_id && entries@[i].document
                    == address.document),
            Err(_) => rank >= hits@.len() || (*addresses matches Some(entries) ==> forall|i: int|
                0 <= i < entries@.len() ==> (#[trigger] entries@[i]).key != hits@[rank as int]),
        },
{
}

proof fn lemma_written_to_is_the_first(values: Seq<WrittenValue>, column: u32, at: nat)
    ensures
        written_to(values, column, at) matches Some(value) ==> exists|i: int|
            at <= i < values.len() && (#[trigger] values[i]).value == value && values[i].column
                == column && forall|j: int| at <= j < i ==> (#[trigger] values[j]).column != column,
        written_to(values, column, at) is None ==> forall|i: int|
            at <= i < values.len() ==> (#[trigger] values[i]).column != column,
    decreases values.len() - at,
{
    if at < values.len() {
        if values[at as int].column == column {
            assert(values[at as int].value == written_to(values, column, at)->0);
        } else {
            lemma_written_to_is_the_first(values, column, at + 1);
            if let Some(value) = written_to(values, column, at + 1) {
                let i = choose|i: int|
                    at + 1 <= i < values.len() && (#[trigger] values[i]).value == value
                        && values[i].column == column && forall|j: int|
                        at + 1 <= j < i ==> (#[trigger] values[j]).column != column;
                assert(values[i].value == value);
            }
        }
    }
}

/// Whether two values are equal, texts by their characters.
pub open spec fn equal_values(left: Option<PredicateValue>, right: Option<PredicateValue>) -> bool {
    match (left, right) {
        (None, None) => true,
        (Some(PredicateValue::String(one)), Some(PredicateValue::String(other))) => one@
            == other@,
        (Some(one), Some(other)) => one == other,
        _ => false,
    }
}

/// The metadata of an active row are its declared columns in order, each with the first
/// value that was written to it, or none.
pub proof fn lemma_active_metadata_are_what_was_written(
    entries: Seq<ColumnValue>,
    schema: Seq<u32>,
    values: Seq<WrittenValue>,
    at: int,
    place: int,
)
    requires
        active_row(entries, schema, values),
        0 <= at < schema.len(),
    ensures
        entries.len() == schema.len(),
        entries[at].column == schema[at],
        0 <= place < values.len() && values[place].column == schema[at] && (forall|j: int|
            0 <= j < place ==> (#[trigger] values[j]).column != schema[at]) ==> equal_values(
            entries[at].value,
            Some(values[place].value),
        ),
        (forall|j: int| 0 <= j < values.len() ==> (#[trigger] values[j]).column != schema[at])
            ==> entries[at].value is None,
{
    lemma_written_to_is_the_first(values, schema[at], 0);
    assert(crate::metadata::same_entry(entries[at], schema[at], written_to(values, schema[at], 0)));
    if let Some(value) = written_to(values, schema[at], 0) {
        let i = choose|i: int|
            0 <= i < values.len() && (#[trigger] values[i]).value == value && values[i].column
                == schema[at] && forall|j: int|
                0 <= j < i ==> (#[trigger] values[j]).column != schema[at];
        if 0 <= place < values.len() && values[place].column == schema[at] && (forall|j: int|
            0 <= j < place ==> (#[trigger] values[j]).column != schema[at]) {
            if i < place {
                assert(values[i].column != schema[at]);
            } else if place < i {
                assert(values[place].column != schema[at]);
            }
        }
    }
}

proof fn lemma_column_named_is_the_first(
    columns: Seq<crate::metadata::SealedColumn>,
    column: u32,
    at: nat,
)
    ensures
        column_named(columns, column, at) matches Some(found) ==> exists|i: int|
            at <= i < columns.len() && #[trigger] columns[i] == found && columns[i].column == column
                && forall|j: int| at <= j < i ==> (#[trigger] columns[j]).column != column,
        column_named(columns, column, at) is None ==> forall|i: int|
            at <= i < columns.len() ==> (#[trigger] columns[i]).column != column,
    decreases columns.len() - at,
{
    if at < columns.len() {
        if columns[at as int].column == column {
            assert(columns[at as int] == column_named(columns, column, at)->0);
        } else {
            lemma_column_named_is_the_first(columns, column, at + 1);
            if let Some(found) = column_named(columns, column, at + 1) {
                let i = choose|i: int|
                    at + 1 <= i < columns.len() && #[trigger] columns[i] == found
                        && columns[i].column == column && forall|j: int|
                        at + 1 <= j < i ==> (#[trigger] columns[j]).column != column;
                assert(columns[i] == found);
            }
        }
    }
}

/// The metadata of a sealed row are its declared columns in order, each with the value
/// that its column holds at that very row, or none.
pub proof fn lemma_sealed_metadata_are_those_of_the_row(
    columns: &SealedColumns,
    row: u32,
    at: int,
    place: int,
    result: Result<Vec<ColumnValue>, StoreError>,
)
    requires
        call_ensures(sealed_row_values, (columns, row), result),
        result is Ok,
        0 <= at < columns.schema@.len(),
    ensures
        row < columns.row_count,
        ({
            let entries = result->Ok_0@;
            let wanted = columns.schema@[at];
            &&& entries.len() == columns.schema@.len()
            &&& entries[at].column == wanted
            &&& 0 <= place < columns.columns@.len() && columns.columns@[place].column == wanted && (
            forall|j: int| 0 <= j < place ==> (#[trigger] columns.columns@[j]).column != wanted)
                ==> equal_values(
                entries[at].value,
                if row < columns.columns@[place].values@.len() {
                    columns.columns@[place].values@[row as int]
                } else {
                    None
                },
            )
            &&& exists|j: int|
                0 <= j < columns.columns@.len() && (#[trigger] columns.columns@[j]).column == wanted
        }),
{
    let wanted = columns.schema@[at];
    let all = columns.columns@;
    lemma_column_named_is_the_first(all, wanted, 0);
    assert(sealed_row(result->Ok_0@, *columns, row));
    assert(crate::metadata::sealed_entry(result->Ok_0@[at], *columns, wanted, row));
    let found = column_named(all, wanted, 0)->0;
    let i = choose|i: int|
        0 <= i < all.len() && #[trigger] all[i] == found && all[i].column == wanted && forall|
            j: int,
        |
            0 <= j < i ==> (#[trigger] all[j]).column != wanted;
    assert(all[i].column == wanted);
    if 0 <= place < all.len() && all[place].column == wanted && (forall|j: int|
        0 <= j < place ==> (#[trigger] all[j]).column != wanted) {
        if i < place {
            assert(all[i].column != wanted);
        } else if place < i {
            assert(all[place].column != wanted);
        }
    }
}

/// A sealed segment is found by its identity: the first that has it, and none where
/// none has.
pub proof fn lemma_metadata_come_from_the_named_segment(
    sealed: Seq<SealedMetadata>,
    sources: Seq<SealedSource>,
    id: SegmentId,
    at: nat,
)
    ensures
        match sealed_named(sealed, id, at) {
            Some(found) => found.id == id && exists|i: int|
                at <= i < sealed.len() && #[trigger] sealed[i] == found,
            None => forall|i: int| at <= i < sealed.len() ==> (#[trigger] sealed[i]).id != id,
        },
        match source_named(sources, id, at) {
            Some(found) => found.id == id && exists|i: int|
                at <= i < sources.len() && #[trigger] sources[i] == found,
            None => forall|i: int| at <= i < sources.len() ==> (#[trigger] sources[i]).id != id,
        },
    decreases sealed.len() + sources.len() - at,
{
    if at < sealed.len() || at < sources.len() {
        lemma_metadata_come_from_the_named_segment(sealed, sources, id, at + 1);
        if at < sealed.len() {
            assert(sealed[at as int] == sealed[at as int]);
        }
        if at < sources.len() {
            assert(sources[at as int] == sources[at as int]);
        }
    }
}

/// A source is evaluated over its own rows: as many as it has, those of them that are
/// alive in order, and what was matched.
pub proof fn lemma_a_source_is_evaluated_over_its_rows(
    result: Result<SourceEvaluation, StoreError>,
    rows: u32,
    alive: Seq<bool>,
    matched: Seq<u32>,
    row: u32,
)
    requires
        crate::metadata::evaluated(
            result,
            Ok::<u32, StoreError>(rows),
            Ok::<Seq<bool>, StoreError>(alive),
            Ok::<Seq<u32>, Seq<char>>(matched),
        ),
        alive.len() <= u32::MAX,
    ensures
        result matches Ok(found) && {
            &&& found.row_count == rows
            &&& found.matches@ == matched
            &&& found.alive@.contains(row) <==> row < alive.len() && alive[row as int]
            &&& forall|i: int, j: int|
                0 <= i < j < found.alive@.len() ==> (#[trigger] found.alive@[i]) < (
                #[trigger] found.alive@[j])
        },
{
    lemma_live_rows_are_the_rows_marked_alive(alive, alive.len());
    let live = live_indices(alive, alive.len());
    if live.contains(row) {
        let at = choose|at: int| 0 <= at < live.len() && live[at] == row;
        assert(live[at] == row);
    }
}

/// The values of an active row are what was written for it, with its own timestamp.
pub proof fn lemma_an_active_row_has_its_own_timestamp(
    store: &Store,
    row: u32,
    active: &ActiveMetadata,
    written: Result<Vec<WrittenValue>, StoreError>,
    sealed: Vec<SealedMetadata>,
    result: Result<Vec<ColumnValue>, StoreError>,
)
    requires
        call_ensures(
            Store::test_metadata_row_values,
            (
                store,
                GlobalRowId { source: RowSource::Active, local_row: row },
                active,
                written,
                sealed,
            ),
            result,
        ),
    ensures
        result is Ok <==> store.active is Some && row < active.timestamps@.len() && written is Ok,
        result matches Ok(entries) ==> active_row(
            entries@,
            active.schema@,
            written->Ok_0@.push(
                WrittenValue {
                    column: active.timestamp_column,
                    value: PredicateValue::I64(active.timestamps@[row as int]),
                },
            ),
        ),
{
}

/// The values of a sealed row are those of its own row, in the segment of its own
/// identity.
pub proof fn lemma_a_sealed_row_has_its_own_values(
    store: &Store,
    id: SegmentId,
    row: u32,
    active: &ActiveMetadata,
    written: Result<Vec<WrittenValue>, StoreError>,
    sealed: Vec<SealedMetadata>,
    result: Result<Vec<ColumnValue>, StoreError>,
)
    requires
        call_ensures(
            Store::test_metadata_row_values,
            (
                store,
                GlobalRowId { source: RowSource::Sealed(id), local_row: row },
                active,
                written,
                sealed,
            ),
            result,
        ),
    ensures
        result matches Ok(entries) ==> exists|i: int|
            0 <= i < sealed@.len() && (#[trigger] sealed@[i]).id == id && (
            sealed@[i].columns matches Ok(columns) && row < columns.row_count
                && sealed_row(entries@, columns, row)),
{
    lemma_metadata_come_from_the_named_segment(sealed@, Seq::empty(), id, 0);
    if result is Ok {
        let found = sealed_named(sealed@, id, 0)->0;
        let i = choose|i: int| 0 <= i < sealed@.len() && #[trigger] sealed@[i] == found;
        assert(sealed@[i].id == id);
    }
}

/// A sealed source is evaluated over its own rows, where it was read.
pub proof fn lemma_a_sealed_source_is_evaluated_over_its_rows(
    store: &Store,
    id: SegmentId,
    active: SourceFacts<StoreError>,
    sealed: Vec<SealedSource>,
    matches: Result<Vec<u32>, String>,
    result: Result<SourceEvaluation, StoreError>,
)
    requires
        call_ensures(
            Store::test_metadata_evaluate_source,
            (store, RowSource::Sealed(id), active, sealed, matches),
            result,
        ),
    ensures
        result matches Ok(found) ==> matches is Ok && found.matches@ == matches->Ok_0@ && exists|
            i: int,
        |
            0 <= i < sealed@.len() && (#[trigger] sealed@[i]).id == id && sealed@[i].facts.alive
                is Ok && (sealed@[i].facts.row_count matches Ok(rows) && rows == found.row_count),
{
    lemma_metadata_come_from_the_named_segment(Seq::empty(), sealed@, id, 0);
    if result is Ok {
        let found = source_named(sealed@, id, 0)->0;
        let i = choose|i: int| 0 <= i < sealed@.len() && #[trigger] sealed@[i] == found;
        assert(sealed@[i].id == id);
    }
}

} // verus!
