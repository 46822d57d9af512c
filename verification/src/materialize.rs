//! Owned text of ranked rows: each result rank leads to one pinned row, whose
//! identity is checked before its text is copied.

use crate::candidates::SearchCandidate;
use crate::candidates::StructuredLexicalSource;
use crate::control::QueryCancellation;
use crate::corpus::document_at;
use crate::corpus::read_document;
use crate::corpus::ActiveFacts;
use crate::corpus::SegmentFacts;
use crate::error::QueryError;
use crate::error::ScanError;
use crate::error::SegmentError;
use crate::error::StoreError;
use crate::fusion::FusionError;
use crate::fusion::FusionLeg;
use crate::identity::find_ranked;
use crate::ids::DocId;
use crate::ids::DocumentVersion;
use crate::ids::GlobalDocId;
use crate::ids::GlobalRowId;
use crate::ids::RowSource;
use crate::ids::SegmentId;
use crate::lexical::read_text;
use crate::lexical::sealed_text_at;
use crate::lexical::text_at;
use crate::lexical::StoreLexicalError;
use crate::poll::check_query;
use crate::poll::halted;
use crate::poll::lemma_no_check;
use crate::poll::lemma_one_more_check;
use crate::poll::passed;
use crate::poll::StopPoll;
use crate::poll::StopSource;
use crate::rank::is_ranked;
use crate::rank::Ranked;
use crate::round::AddressEntry;
use crate::search::scan_failure;
use crate::store::Store;
use crate::text::decimal;
use crate::text::push_decimal;
use vstd::prelude::*;
use vstd::std_specs::convert::FromSpecImpl;

verus! {

/// Keeps a deferred vector producer's error apart from a search failure.
#[derive(Debug)]
pub enum HybridPreparationError<E> {
    /// The caller could not produce a query vector.
    Preparation(E),
    /// Admission, retrieval, fusion, cancellation or materialization failed.
    Search(FusionError),
}

impl<E> FromSpecImpl<FusionError> for HybridPreparationError<E> {
    open spec fn obeys_from_spec() -> bool {
        true
    }

    open spec fn from_spec(error: FusionError) -> HybridPreparationError<E> {
        HybridPreparationError::Search(error)
    }
}

impl<E> From<FusionError> for HybridPreparationError<E> {
    fn from(error: FusionError) -> (result: HybridPreparationError<E>) {
        HybridPreparationError::Search(error)
    }
}

impl<E> HybridPreparationError<E> {
    /// A query failure on the way; `inner` is how the scan or graph engine words
    /// its own failure.
    pub fn from_query(error: QueryError, inner: &str) -> (result: HybridPreparationError<E>)
        ensures
            result matches HybridPreparationError::Search(failure) && failure.stands_for(
                error,
                FusionLeg::Vector,
                inner@,
            ),
    {
        HybridPreparationError::Search(FusionError::from_query(error, FusionLeg::Vector, inner))
    }
}

/// Observations of query lifecycles and source lookups, for tests.
#[derive(Clone, Copy, Debug, PartialEq, Eq, Structural)]
pub struct MaterializationTestCounters {
    /// Vector and lexical admissions.
    pub admissions: u64,
    /// Lookups from a document version to its row.
    pub reverse_version_lookups: u64,
    /// Ranked rows requested through a materializer.
    pub direct_row_lookups: u64,
}

/// One more, round past the counter's end.
pub open spec fn counted_on(count: u64) -> u64 {
    if count < u64::MAX {
        (count + 1) as u64
    } else {
        0
    }
}

fn count_on(count: u64) -> (next: u64)
    ensures
        next == counted_on(count),
{
    if count < u64::MAX {
        count + 1
    } else {
        0
    }
}

impl MaterializationTestCounters {
    /// Nothing was observed.
    pub fn new() -> (counters: MaterializationTestCounters)
        ensures
            counters == (MaterializationTestCounters {
                admissions: 0,
                reverse_version_lookups: 0,
                direct_row_lookups: 0,
            }),
    {
        MaterializationTestCounters {
            admissions: 0,
            reverse_version_lookups: 0,
            direct_row_lookups: 0,
        }
    }

    /// Counts an admission.
    pub fn admitted(&mut self)
        ensures
            *final(self) == (MaterializationTestCounters {
                admissions: counted_on(old(self).admissions),
                ..*old(self)
            }),
    {
        self.admissions = count_on(self.admissions);
    }

    /// Counts a lookup from a document version to its row.
    pub fn version_looked_up(&mut self)
        ensures
            *final(self) == (MaterializationTestCounters {
                reverse_version_lookups: counted_on(old(self).reverse_version_lookups),
                ..*old(self)
            }),
    {
        self.reverse_version_lookups = count_on(self.reverse_version_lookups);
    }

    /// Counts a ranked row that was requested.
    pub fn row_requested(&mut self)
        ensures
            *final(self) == (MaterializationTestCounters {
                direct_row_lookups: counted_on(old(self).direct_row_lookups),
                ..*old(self)
            }),
    {
        self.direct_row_lookups = count_on(self.direct_row_lookups);
    }
}

/// One owned source row of a ranked hit.
#[derive(Clone, Debug, PartialEq, Eq)]
pub struct MaterializedRow {
    /// The exact document version whose row was scored.
    pub document: DocumentVersion,
    /// Row coordinates within the retrieval snapshot.
    pub row_id: GlobalRowId,
    /// One owned copy of the stored body.
    pub text: String,
}

/// A ranked row could not be materialized faithfully.
#[derive(Clone, Debug, PartialEq, Eq)]
pub enum MaterializationError {
    /// The caller requested a rank outside the returned list.
    RankOutOfRange { rank: usize, returned: usize },
    /// The ranked row has no application identity.
    MissingIdentity { row_id: GlobalRowId },
    /// The ranked document has no stored text.
    MissingText { row_id: GlobalRowId, document: DocumentVersion },
    /// The ranked source is absent from the admitted snapshot.
    MissingSource { row_id: GlobalRowId },
    /// A lexical source ordinal has no source in the admitted assembly.
    InvalidLexicalSource { source: u32 },
    /// A fused key has no retained source identity.
    MissingFusedIdentity { document: DocId },
    /// The row does not hold the version that was ranked.
    IdentityMismatch {
        row_id: GlobalRowId,
        expected: DocumentVersion,
        actual: Option<DocumentVersion>,
    },
    /// The result could not reserve its text buffer.
    AllocationFailed { bytes: usize },
    /// A work count overflowed.
    ArithmeticOverflow,
    /// Cancellation or deadline prevented complete materialization.
    Query(QueryError),
    /// Storage validation or lifecycle failure.
    Storage(StoreError),
}

/// How a caller words what a failure names: a row, the document that was ranked or
/// fused, what was found in its place, and a failure that it carries.
#[derive(Clone, Debug, PartialEq, Eq)]
pub struct MaterializationWords {
    pub row: String,
    pub document: String,
    pub found: String,
    pub inner: String,
}

impl MaterializationError {
    /// What the error says, in the caller's words for what it names.
    pub open spec fn spec_message(self, words: MaterializationWords) -> Seq<char> {
        match self {
            MaterializationError::RankOutOfRange { rank, returned } => "result rank "@ + decimal(
                rank as nat,
            ) + " is outside "@ + decimal(returned as nat) + " returned rows"@,
            MaterializationError::MissingIdentity { .. } => "result row "@ + words.row@
                + " has no document identity"@,
            MaterializationError::MissingText { .. } => "result row "@ + words.row@ + " for "@
                + words.document@ + " has no stored text"@,
            MaterializationError::MissingSource { .. } => "result row "@ + words.row@
                + " is outside the admitted snapshot"@,
            MaterializationError::InvalidLexicalSource { source } => "lexical result source "@
                + decimal(source as nat) + " is outside the admitted assembly"@,
            MaterializationError::MissingFusedIdentity { .. } => "fused document "@ + words.document@
                + " has no ranked source identity"@,
            MaterializationError::IdentityMismatch { .. } => "result row "@ + words.row@ + " expected "@
                + words.document@ + ", found "@ + words.found@,
            MaterializationError::AllocationFailed { bytes } => "result text allocation of "@
                + decimal(bytes as nat) + " bytes failed"@,
            MaterializationError::ArithmeticOverflow => "result materialization counter overflow"@,
            MaterializationError::Query(_) => words.inner@,
            MaterializationError::Storage(_) => words.inner@,
        }
    }

    /// What the error says, in the caller's words for what it names.
    pub fn message(&self, words: &MaterializationWords) -> (text: String)
        ensures
            text@ == self.spec_message(*words),
    {
        let mut out = String::new();
        match self {
            MaterializationError::RankOutOfRange { rank, returned } => {
                out.append("result rank ");
                push_decimal(&mut out, *rank as u128);
                out.append(" is outside ");
                push_decimal(&mut out, *returned as u128);
                out.append(" returned rows");
            },
            MaterializationError::MissingIdentity { .. } => {
                out.append("result row ");
                out.append(words.row.as_str());
                out.append(" has no document identity");
            },
            MaterializationError::MissingText { .. } => {
                out.append("result row ");
                out.append(words.row.as_str());
                out.append(" for ");
                out.append(words.document.as_str());
                out.append(" has no stored text");
            },
            MaterializationError::MissingSource { .. } => {
                out.append("result row ");
                out.append(words.row.as_str());
                out.append(" is outside the admitted snapshot");
            },
            MaterializationError::InvalidLexicalSource { source } => {
                out.append("lexical result source ");
                push_decimal(&mut out, *source as u128);
                out.append(" is outside the admitted assembly");
            },
            MaterializationError::MissingFusedIdentity { .. } => {
                out.append("fused document ");
                out.append(words.document.as_str());
                out.append(" has no ranked source identity");
            },
            MaterializationError::IdentityMismatch { .. } => {
                out.append("result row ");
                out.append(words.row.as_str());
                out.append(" expected ");
                out.append(words.document.as_str());
                out.append(", found ");
                out.append(words.found.as_str());
            },
            MaterializationError::AllocationFailed { bytes } => {
                out.append("result text allocation of ");
                push_decimal(&mut out, *bytes as u128);
                out.append(" bytes failed");
            },
            MaterializationError::ArithmeticOverflow => {
                out.append("result materialization counter overflow");
            },
            MaterializationError::Query(_) => {
                out.append(words.inner.as_str());
            },
            MaterializationError::Storage(_) => {
                out.append(words.inner.as_str());
            },
        }
        assert(out@ == self.spec_message(*words));
        out
    }
}

/// Bytes of a text.
pub open spec fn byte_len(chars: Seq<char>) -> usize {
    vstd::utf8::encode_utf8(chars).len() as usize
}

/// Where a ranked result lies, and the version that was ranked.
#[derive(Clone, Copy, Debug, PartialEq, Eq, Structural)]
pub struct ResultAddress {
    pub row_id: GlobalRowId,
    pub document: Option<DocumentVersion>,
}

/// The address of a vector result.
pub fn vector_address(candidates: &Vec<SearchCandidate>, rank: usize) -> (result: Result<
    ResultAddress,
    MaterializationError,
>)
    ensures
        result == if rank < candidates@.len() {
            Ok(
                ResultAddress {
                    row_id: candidates@[rank as int].row_id,
                    document: candidates@[rank as int].document,
                },
            )
        } else {
            Err(
                MaterializationError::RankOutOfRange { rank, returned: candidates@.len() as usize },
            )
        },
{
    if rank < candidates.len() {
        Ok(
            ResultAddress {
                row_id: candidates[rank].row_id,
                document: candidates[rank].document,
            },
        )
    } else {
        Err(MaterializationError::RankOutOfRange { rank, returned: candidates.len() })
    }
}

/// The row of a lexical hit.
pub open spec fn row_of_hit(
    segments: Seq<SegmentFacts>,
    sources: Seq<StructuredLexicalSource>,
    doc: GlobalDocId,
) -> Result<GlobalRowId, MaterializationError> {
    if doc.segment >= sources.len() {
        Err(MaterializationError::InvalidLexicalSource { source: doc.segment })
    } else {
        match sources[doc.segment as int] {
            StructuredLexicalSource::Active => Ok(
                GlobalRowId { source: RowSource::Active, local_row: doc.row },
            ),
            StructuredLexicalSource::Sealed(ordinal) => if ordinal < segments.len() {
                Ok(
                    GlobalRowId {
                        source: RowSource::Sealed(segments[ordinal as int].id),
                        local_row: doc.row,
                    },
                )
            } else {
                Err(MaterializationError::InvalidLexicalSource { source: doc.segment })
            },
        }
    }
}

/// The row of a lexical hit.
pub fn lexical_row_id(
    segments: &Vec<SegmentFacts>,
    sources: &Vec<StructuredLexicalSource>,
    doc: GlobalDocId,
) -> (result: Result<GlobalRowId, MaterializationError>)
    ensures
        result == row_of_hit(segments@, sources@, doc),
{
    if doc.segment as usize >= sources.len() {
        return Err(MaterializationError::InvalidLexicalSource { source: doc.segment });
    }
    match sources[doc.segment as usize] {
        StructuredLexicalSource::Active => Ok(GlobalRowId::new(RowSource::Active, doc.row)),
        StructuredLexicalSource::Sealed(ordinal) => {
            if ordinal < segments.len() {
                Ok(GlobalRowId::new(RowSource::Sealed(segments[ordinal].id), doc.row))
            } else {
                Err(MaterializationError::InvalidLexicalSource { source: doc.segment })
            }
        },
    }
}

/// The address of a lexical result: `documents` are the returned candidates and
/// `hits` the positions that they were found at.
pub fn lexical_address(
    segments: &Vec<SegmentFacts>,
    sources: &Vec<StructuredLexicalSource>,
    documents: &Vec<DocumentVersion>,
    hits: &Vec<GlobalDocId>,
    rank: usize,
) -> (result: Result<ResultAddress, MaterializationError>)
    ensures
        result == if rank >= documents@.len() {
            Err(
                MaterializationError::RankOutOfRange { rank, returned: documents@.len() as usize },
            )
        } else if rank >= hits@.len() {
            Err(MaterializationError::RankOutOfRange { rank, returned: hits@.len() as usize })
        } else {
            match row_of_hit(segments@, sources@, hits@[rank as int]) {
                Ok(row_id) => Ok(
                    ResultAddress { row_id, document: Some(documents@[rank as int]) },
                ),
                Err(error) => Err(error),
            }
        },
{
    if rank >= documents.len() {
        return Err(MaterializationError::RankOutOfRange { rank, returned: documents.len() });
    }
    if rank >= hits.len() {
        return Err(MaterializationError::RankOutOfRange { rank, returned: hits.len() });
    }
    match lexical_row_id(segments, sources, hits[rank]) {
        Ok(row_id) => Ok(ResultAddress { row_id, document: Some(documents[rank]) }),
        Err(error) => Err(error),
    }
}

/// The address of a fused result: its key is looked up among the addresses that
/// the round kept.
pub fn hybrid_address(
    hits: &Vec<DocId>,
    addresses: &Option<Vec<AddressEntry>>,
    rank: usize,
) -> (result: Result<ResultAddress, MaterializationError>)
    requires
        addresses matches Some(entries) ==> is_ranked(entries@),
    ensures
        match result {
            Ok(address) => {
                &&& rank < hits@.len()
                &&& addresses matches Some(entries) && exists|i: int|
                    0 <= i < entries@.len() && (#[trigger] entries@[i]).key == hits@[rank as int]
                        && address.row_id == entries@[i].row_id && address.document
                        == entries@[i].document
            },
            Err(error) => if rank >= hits@.len() {
                error == (MaterializationError::RankOutOfRange {
                    rank,
                    returned: hits@.len() as usize,
                })
            } else {
                &&& error == (MaterializationError::MissingFusedIdentity {
                    document: hits@[rank as int],
                })
                &&& addresses matches Some(entries) ==> forall|i: int|
                    0 <= i < entries@.len() ==> (#[trigger] entries@[i]).key != hits@[rank as int]
            },
        },
{
    if rank >= hits.len() {
        return Err(MaterializationError::RankOutOfRange { rank, returned: hits.len() });
    }
    let key = hits[rank];
    match addresses {
        None => Err(MaterializationError::MissingFusedIdentity { document: key }),
        Some(entries) => {
            let probe = AddressEntry {
                key,
                row_id: GlobalRowId::new(RowSource::Active, 0),
                document: None,
            };
            assert(entries@.take(entries@.len() as int) == entries@);
            match find_ranked(entries, entries.len(), &probe) {
                Some(at) => {
                    assert(entries@[at as int].key == key);
                    Ok(
                        ResultAddress {
                            row_id: entries[at].row_id,
                            document: entries[at].document,
                        },
                    )
                },
                None => {
                    assert forall|i: int| 0 <= i < entries@.len() implies (
                    #[trigger] entries@[i]).key != key by {
                        assert(entries@[i].rank() != probe.rank());
                    }
                    Err(MaterializationError::MissingFusedIdentity { document: key })
                },
            }
        },
    }
}

/// Work of one materializer.
#[derive(Clone, Copy, Debug, PartialEq, Eq, Structural)]
pub struct MaterializationCounters {
    pub row_lookups: u64,
    pub text_copies: u64,
    pub text_bytes: u64,
}

/// Rank-addressed text access within one query.
#[derive(Clone, Copy, Debug, PartialEq, Eq, Structural)]
pub struct QueryMaterializer {
    pub cancellation: QueryCancellation,
    pub counts: MaterializationCounters,
}

/// The segment with an identity, from `at` on.
pub open spec fn segment_with(
    segments: Seq<SegmentFacts>,
    id: SegmentId,
    at: nat,
) -> Option<SegmentFacts>
    decreases segments.len() - at,
{
    if at >= segments.len() {
        None
    } else if segments[at as int].id == id {
        Some(segments[at as int])
    } else {
        segment_with(segments, id, at + 1)
    }
}

/// The document and the text at a row, where its source is admitted.
pub open spec fn row_contents(
    segments: Seq<SegmentFacts>,
    active: ActiveFacts,
    row: GlobalRowId,
) -> Option<(Option<DocumentVersion>, Option<String>)> {
    match row.source {
        RowSource::Active => Some(
            (
                document_at(active.documents@, row.local_row as nat),
                text_at(active.texts@, row.local_row as nat),
            ),
        ),
        RowSource::Sealed(id) => match segment_with(segments, id, 0) {
            None => None,
            Some(segment) => Some(
                (
                    document_at(segment.documents@, row.local_row as nat),
                    sealed_text_at(segment, row.local_row as nat),
                ),
            ),
        },
    }
}

/// The text that an address leads to, or why there is none: the row has to hold
/// the very version that was ranked. `read` is how reading the row out of its
/// source went.
pub open spec fn text_of_address(
    segments: Seq<SegmentFacts>,
    active: ActiveFacts,
    address: ResultAddress,
    read: Result<(), StoreError>,
) -> Result<String, MaterializationError> {
    let row_id = address.row_id;
    match address.document {
        None => Err(MaterializationError::MissingIdentity { row_id }),
        Some(expected) => match row_contents(segments, active, row_id) {
            None => Err(MaterializationError::MissingSource { row_id }),
            Some(contents) => if read is Err {
                Err(MaterializationError::Storage(read->Err_0))
            } else if contents.0 != Some(expected) {
                Err(
                    MaterializationError::IdentityMismatch {
                        row_id,
                        expected,
                        actual: contents.0,
                    },
                )
            } else {
                match contents.1 {
                    None => Err(MaterializationError::MissingText { row_id, document: expected }),
                    Some(text) => Ok(text),
                }
            },
        },
    }
}

fn find_contents<'a>(
    segments: &'a Vec<SegmentFacts>,
    active: &'a ActiveFacts,
    row: GlobalRowId,
) -> (result: Option<(Option<DocumentVersion>, Option<&'a String>)>)
    ensures
        match row_contents(segments@, *active, row) {
            None => result is None,
            Some(contents) => result matches Some(found) && found.0 == contents.0 && match (
                found.1,
                contents.1,
            ) {
                (Some(text), Some(wanted)) => *text == wanted,
                (None, None) => true,
                _ => false,
            },
        },
{
    let local: usize = row.local_row as usize;
    match row.source {
        RowSource::Active => Some(
            (read_document(&active.documents, local), read_text(&active.texts, local)),
        ),
        RowSource::Sealed(id) => {
            let mut at: usize = 0;
            while at < segments.len()
                invariant
                    at <= segments@.len(),
                    row.source == RowSource::Sealed(id),
                    local == row.local_row,
                    segment_with(segments@, id, 0) == segment_with(segments@, id, at as nat),
                decreases segments.len() - at,
            {
                if segments[at].id == id {
                    let text = match &segments[at].texts {
                        Some(texts) => read_text(texts, local),
                        None => None,
                    };
                    return Some((read_document(&segments[at].documents, local), text));
                }
                at = at + 1;
            }
            None
        },
    }
}

impl QueryMaterializer {
    /// A materializer that has done nothing.
    pub open spec fn spec_new(cancellation: QueryCancellation) -> QueryMaterializer {
        QueryMaterializer {
            cancellation,
            counts: MaterializationCounters { row_lookups: 0, text_copies: 0, text_bytes: 0 },
        }
    }

    /// A materializer that has done nothing.
    pub fn new(cancellation: QueryCancellation) -> (materializer: QueryMaterializer)
        ensures
            materializer == Self::spec_new(cancellation),
    {
        QueryMaterializer {
            cancellation,
            counts: MaterializationCounters { row_lookups: 0, text_copies: 0, text_bytes: 0 },
        }
    }

    /// The failure of one request, if there is one, apart from a stop: `read` is
    /// how reading the row went, and `denied` says that memory for the copy was
    /// refused.
    pub open spec fn request_failure(
        self,
        segments: Seq<SegmentFacts>,
        active: ActiveFacts,
        address: ResultAddress,
        read: Result<(), StoreError>,
        denied: bool,
    ) -> Option<MaterializationError> {
        if address.document is Some && self.counts.row_lookups == u64::MAX {
            Some(MaterializationError::ArithmeticOverflow)
        } else {
            match text_of_address(segments, active, address, read) {
                Err(error) => Some(error),
                Ok(text) => {
                    let bytes = byte_len(text@);
                    if denied {
                        Some(MaterializationError::AllocationFailed { bytes })
                    } else if self.counts.text_copies == u64::MAX || self.counts.text_bytes + bytes
                        > u64::MAX {
                        Some(MaterializationError::ArithmeticOverflow)
                    } else {
                        None
                    }
                },
            }
        }
    }

    /// What a request for the text at `address` comes to, where the query is not
    /// stopped, with the counts behind it.
    pub open spec fn answers(
        self,
        segments: Seq<SegmentFacts>,
        active: ActiveFacts,
        address: Result<ResultAddress, MaterializationError>,
        read: Result<(), StoreError>,
        denied: bool,
        result: Result<MaterializedRow, MaterializationError>,
        after: QueryMaterializer,
    ) -> bool {
        match address {
            Err(reason) => result == Err::<MaterializedRow, MaterializationError>(reason) && after
                == self,
            Ok(place) => match self.request_failure(segments, active, place, read, denied) {
                Some(error) => {
                    &&& result == Err::<MaterializedRow, MaterializationError>(error)
                    &&& after == self.with_lookup(place)
                },
                None => {
                    &&& result matches Ok(row) && self.copies(segments, active, place, row)
                    &&& after == self.with_copy(segments, active, place)
                },
            },
        }
    }

    /// Whether a row is the one that was ranked, with its stored text.
    pub open spec fn copies(
        self,
        segments: Seq<SegmentFacts>,
        active: ActiveFacts,
        place: ResultAddress,
        row: MaterializedRow,
    ) -> bool {
        &&& place.document == Some(row.document)
        &&& place.row_id == row.row_id
        &&& text_of_address(segments, active, place, Ok(())) matches Ok(stored) && row.text@
            == stored@
    }

    /// The materializer behind a lookup that gave no text: the lookup of a row
    /// with an identity counts.
    pub open spec fn with_lookup(self, place: ResultAddress) -> QueryMaterializer {
        QueryMaterializer {
            counts: MaterializationCounters {
                row_lookups: if place.document is Some && self.counts.row_lookups < u64::MAX {
                    (self.counts.row_lookups + 1) as u64
                } else {
                    self.counts.row_lookups
                },
                ..self.counts
            },
            ..self
        }
    }

    /// The materializer behind a copy.
    pub open spec fn with_copy(
        self,
        segments: Seq<SegmentFacts>,
        active: ActiveFacts,
        place: ResultAddress,
    ) -> QueryMaterializer {
        let stored = text_of_address(segments, active, place, Ok(()))->Ok_0;
        QueryMaterializer {
            counts: MaterializationCounters {
                row_lookups: (self.counts.row_lookups + 1) as u64,
                text_copies: (self.counts.text_copies + 1) as u64,
                text_bytes: (self.counts.text_bytes + byte_len(stored@)) as u64,
            },
            ..self
        }
    }

    /// What a request for the text at `address` comes to. A stop is checked before
    /// the row is looked up, and again behind a copy: the first check that finds one
    /// ends the request, and one behind the copy leaves the copy counted.
    pub open spec fn settles(
        self,
        segments: Seq<SegmentFacts>,
        active: ActiveFacts,
        address: Result<ResultAddress, MaterializationError>,
        read: Result<(), StoreError>,
        denied: bool,
        result: Result<MaterializedRow, MaterializationError>,
        after: QueryMaterializer,
        answers: Seq<Result<(), ScanError>>,
        answers_after: Seq<Result<(), ScanError>>,
    ) -> bool {
        let stop = halted(answers, answers_after, 1);
        let late_stop = halted(answers, answers_after, 2);
        if stop is Some {
            &&& result == Err::<MaterializedRow, MaterializationError>(
                MaterializationError::Query(scan_failure(stop->Some_0)),
            )
            &&& after == self
        } else if late_stop is Some {
            &&& result == Err::<MaterializedRow, MaterializationError>(
                MaterializationError::Query(scan_failure(late_stop->Some_0)),
            )
            &&& exists|copied: Result<MaterializedRow, MaterializationError>|
                copied is Ok && #[trigger] self.answers(
                    segments,
                    active,
                    address,
                    read,
                    denied,
                    copied,
                    after,
                )
        } else {
            &&& passed(
                answers,
                answers_after,
                if result is Ok {
                    2
                } else {
                    1
                },
            )
            &&& self.answers(segments, active, address, read, denied, result, after)
        }
    }

    /// Copies the exact stored text and version of one result. `address` is
    /// where its rank leads, and `read` how reading its row went. A stop is
    /// checked before the row is looked up and behind the copy.
    pub fn text<S: StopSource>(
        &mut self,
        segments: &Vec<SegmentFacts>,
        active: &ActiveFacts,
        address: Result<ResultAddress, MaterializationError>,
        read: Result<(), StoreError>,
        denied: bool,
        poll: &mut StopPoll<S>,
    ) -> (result: Result<MaterializedRow, MaterializationError>)
        requires
            old(poll).wf(),
            old(poll).query == old(self).cancellation,
        ensures
            final(self).cancellation == old(self).cancellation,
            final(poll).follows(*old(poll)),
            final(poll).wf(),
            old(poll).found matches Some(stop) ==> {
                &&& result == Err::<MaterializedRow, MaterializationError>(
                    MaterializationError::Query(scan_failure(stop)),
                )
                &&& *final(self) == *old(self)
            },
            old(self).settles(
                segments@,
                *active,
                address,
                read,
                denied,
                result,
                *final(self),
                old(poll).answers(),
                final(poll).answers(),
            ),
    {
        let ghost before = poll.answers();
        let checked = check_text(poll);
        let ghost between = poll.answers();
        proof {
            lemma_no_check(before);
            lemma_one_more_check(before, before, between, 0, between.last());
        }
        checked?;
        let place = match address {
            Ok(place) => place,
            Err(error) => {
                return Err(error);
            },
        };
        let (document, text) = self.materialize_address(segments, active, place, read, denied)?;
        let row = MaterializedRow { document, row_id: place.row_id, text };
        assert(old(self).answers(segments@, *active, address, read, denied, Ok(row), *self));
        let checked = check_text(poll);
        proof {
            lemma_one_more_check(before, between, poll.answers(), 1, poll.answers().last());
        }
        checked?;
        Ok(row)
    }

    /// Copies the text of one result under another identity than it was ranked
    /// with.
    pub fn text_with_test_document<S: StopSource>(
        &mut self,
        segments: &Vec<SegmentFacts>,
        active: &ActiveFacts,
        address: Result<ResultAddress, MaterializationError>,
        document: Option<DocumentVersion>,
        read: Result<(), StoreError>,
        denied: bool,
        poll: &mut StopPoll<S>,
    ) -> (result: Result<MaterializedRow, MaterializationError>)
        requires
            old(poll).wf(),
            old(poll).query == old(self).cancellation,
        ensures
            final(self).cancellation == old(self).cancellation,
            final(poll).follows(*old(poll)),
            final(poll).wf(),
            old(poll).found matches Some(stop) ==> {
                &&& result == Err::<MaterializedRow, MaterializationError>(
                    MaterializationError::Query(scan_failure(stop)),
                )
                &&& *final(self) == *old(self)
            },
            old(self).settles(
                segments@,
                *active,
                match address {
                    Ok(place) => Ok(ResultAddress { document, ..place }),
                    Err(error) => Err(error),
                },
                read,
                denied,
                result,
                *final(self),
                old(poll).answers(),
                final(poll).answers(),
            ),
    {
        let planted = match address {
            Ok(place) => Ok(ResultAddress { row_id: place.row_id, document }),
            Err(error) => Err(error),
        };
        self.text(segments, active, planted, read, denied, poll)
    }

    /// Copies the text that an address leads to and counts the work: the lookup
    /// of any row with an identity, and each copy with its bytes. `read` is how
    /// reading the row went.
    pub fn materialize_address(
        &mut self,
        segments: &Vec<SegmentFacts>,
        active: &ActiveFacts,
        address: ResultAddress,
        read: Result<(), StoreError>,
        denied: bool,
    ) -> (result: Result<(DocumentVersion, String), MaterializationError>)
        ensures
            match old(self).request_failure(segments@, *active, address, read, denied) {
                Some(error) => {
                    &&& result == Err::<(DocumentVersion, String), MaterializationError>(error)
                    &&& *final(self) == old(self).with_lookup(address)
                },
                None => {
                    let stored = text_of_address(segments@, *active, address, Ok(()))->Ok_0;
                    &&& result matches Ok(pair) && address.document == Some(pair.0) && pair.1@
                        == stored@
                    &&& *final(self) == old(self).with_copy(segments@, *active, address)
                },
            },
    {
        let row_id = address.row_id;
        let document = match address.document {
            Some(document) => document,
            None => {
                return Err(MaterializationError::MissingIdentity { row_id });
            },
        };
        match self.counts.row_lookups.checked_add(1) {
            Some(count) => {
                self.counts.row_lookups = count;
            },
            None => {
                return Err(MaterializationError::ArithmeticOverflow);
            },
        }
        let (actual, source) = match find_contents(segments, active, row_id) {
            Some(contents) => contents,
            None => {
                return Err(MaterializationError::MissingSource { row_id });
            },
        };
        if let Err(error) = read {
            return Err(MaterializationError::Storage(error));
        }
        let same = match actual {
            Some(found) => found == document,
            None => false,
        };
        if !same {
            return Err(
                MaterializationError::IdentityMismatch { row_id, expected: document, actual },
            );
        }
        let source = match source {
            Some(source) => source,
            None => {
                return Err(MaterializationError::MissingText { row_id, document });
            },
        };
        let bytes: usize = source.as_str().len();
        if denied {
            return Err(MaterializationError::AllocationFailed { bytes });
        }
        let text = source.clone();
        let copies: u64 = match self.counts.text_copies.checked_add(1) {
            Some(count) => count,
            None => {
                return Err(MaterializationError::ArithmeticOverflow);
            },
        };
        let total: u64 = match self.counts.text_bytes.checked_add(bytes as u64) {
            Some(count) => count,
            None => {
                return Err(MaterializationError::ArithmeticOverflow);
            },
        };
        self.counts.text_copies = copies;
        self.counts.text_bytes = total;
        Ok((document, text))
    }
}

fn check_text<S: StopSource>(poll: &mut StopPoll<S>) -> (result: Result<(), MaterializationError>)
    requires
        old(poll).wf(),
    ensures
        final(poll).follows(*old(poll)),
        final(poll).wf(),
        ({
            let answer = final(poll).answers().last();
            &&& final(poll).answers() == old(poll).answers().push(answer)
            &&& old(poll).found matches Some(stop) ==> answer == Err::<(), ScanError>(stop)
            &&& match answer {
                Err(stop) => result == Err::<(), MaterializationError>(
                    MaterializationError::Query(scan_failure(stop)),
                ),
                Ok(_) => result is Ok,
            }
        }),
{
    match check_query(poll) {
        Ok(_) => Ok(()),
        Err(error) => Err(MaterializationError::Query(error)),
    }
}

/// Row of the current revision of a document in the active segment: the last
/// one with its key.
pub open spec fn current_row(
    documents: Seq<Option<DocumentVersion>>,
    key: DocId,
    n: nat,
) -> Option<nat>
    decreases n,
{
    if n == 0 {
        None
    } else {
        match documents[n - 1] {
            Some(version) => if version.doc_id == key {
                Some((n - 1) as nat)
            } else {
                current_row(documents, key, (n - 1) as nat)
            },
            None => current_row(documents, key, (n - 1) as nat),
        }
    }
}

/// First row from `at` on that holds a version.
pub open spec fn version_row(
    documents: Seq<Option<DocumentVersion>>,
    version: DocumentVersion,
    at: nat,
) -> Option<nat>
    decreases documents.len() - at,
{
    if at >= documents.len() {
        None
    } else if documents[at as int] == Some(version) {
        Some(at)
    } else {
        version_row(documents, version, at + 1)
    }
}

/// Why a stored body could not be read: the text of the active row, the row of
/// the version in a segment, or the text of a segment.
#[derive(Clone, Debug, PartialEq, Eq)]
pub enum StoredTextFault {
    ActiveText(StoreError),
    Lookup { ordinal: usize, error: StoreError },
    Text { ordinal: usize, error: SegmentError },
}

/// Text of a version in the sealed segments from `at` on: that of the first
/// segment that holds the version, or the failure of the first read that has
/// one.
pub open spec fn sealed_version_text(
    segments: Seq<SegmentFacts>,
    version: DocumentVersion,
    fault: Option<StoredTextFault>,
    at: nat,
) -> Result<Option<String>, StoreError>
    decreases segments.len() - at,
{
    if at >= segments.len() {
        Ok(None)
    } else {
        match fault {
            Some(StoredTextFault::Lookup { ordinal, error }) if ordinal == at => Err(error),
            _ => match version_row(segments[at as int].documents@, version, 0) {
                None => sealed_version_text(segments, version, fault, at + 1),
                Some(row) => match fault {
                    Some(StoredTextFault::Text { ordinal, error }) if ordinal == at => Err(
                        StoreError::Segment(error),
                    ),
                    _ => Ok(sealed_text_at(segments[at as int], row)),
                },
            },
        }
    }
}

/// Stored text of one exact revision: that of the active segment where the
/// revision is current there, else that of the first sealed segment that holds
/// it.
pub open spec fn version_text(
    segments: Seq<SegmentFacts>,
    active: ActiveFacts,
    version: DocumentVersion,
    fault: Option<StoredTextFault>,
) -> Result<Option<String>, StoreError> {
    match current_row(active.documents@, version.doc_id, active.documents@.len()) {
        Some(row) if active.documents@[row as int] == Some(version) => match fault {
            Some(StoredTextFault::ActiveText(error)) => Err(error),
            _ => Ok(text_at(active.texts@, row)),
        },
        _ => sealed_version_text(segments, version, fault, 0),
    }
}

/// Row of the current revision of a document in the active segment, where that
/// is the revision asked for.
fn find_current(active: &ActiveFacts, version: DocumentVersion) -> (row: Option<usize>)
    ensures
        match row {
            Some(at) => at < active.documents@.len() && active.documents@[at as int] == Some(
                version,
            ) && current_row(
                active.documents@,
                version.doc_id,
                active.documents@.len(),
            ) == Some(at as nat),
            None => current_row(
                active.documents@,
                version.doc_id,
                active.documents@.len(),
            ) matches Some(at) ==> active.documents@[at as int] != Some(version),
        },
{
    let mut left: usize = active.documents.len();
    while left > 0
        invariant
            left <= active.documents@.len(),
            current_row(active.documents@, version.doc_id, active.documents@.len()) == current_row(
                active.documents@,
                version.doc_id,
                left as nat,
            ),
        decreases left,
    {
        left = left - 1;
        if let Some(found) = active.documents[left] {
            if found.doc_id == version.doc_id {
                return if found == version {
                    Some(left)
                } else {
                    None
                };
            }
        }
    }
    None
}

fn find_version(documents: &Vec<Option<DocumentVersion>>, version: DocumentVersion) -> (row: Option<
    usize,
>)
    ensures
        match row {
            Some(at) => version_row(documents@, version, 0) == Some(at as nat),
            None => version_row(documents@, version, 0) is None,
        },
{
    let mut row: usize = 0;
    while row < documents.len()
        invariant
            row <= documents@.len(),
            version_row(documents@, version, 0) == version_row(documents@, version, row as nat),
        decreases documents.len() - row,
    {
        if let Some(found) = documents[row] {
            if found == version {
                return Some(row);
            }
        }
        row = row + 1;
    }
    None
}

fn find_stored<'a>(
    segments: &'a Vec<SegmentFacts>,
    active: &'a ActiveFacts,
    version: DocumentVersion,
    fault: Option<StoredTextFault>,
) -> (result: Result<Option<&'a String>, StoreError>)
    ensures
        match version_text(segments@, *active, version, fault) {
            Err(error) => result == Err::<Option<&'a String>, StoreError>(error),
            Ok(None) => result == Ok::<Option<&'a String>, StoreError>(None),
            Ok(Some(stored)) => result matches Ok(Some(text)) && *text == stored,
        },
{
    if let Some(row) = find_current(active, version) {
        return match fault {
            Some(StoredTextFault::ActiveText(error)) => Err(error),
            _ => Ok(read_text(&active.texts, row)),
        };
    }
    let mut at: usize = 0;
    while at < segments.len()
        invariant
            at <= segments@.len(),
            version_text(segments@, *active, version, fault) == sealed_version_text(
                segments@,
                version,
                fault,
                at as nat,
            ),
        decreases segments.len() - at,
    {
        let lookup_failed = match &fault {
            Some(StoredTextFault::Lookup { ordinal, .. }) => *ordinal == at,
            _ => false,
        };
        if lookup_failed {
            if let Some(StoredTextFault::Lookup { error, .. }) = fault {
                return Err(error);
            }
        }
        if let Some(row) = find_version(&segments[at].documents, version) {
            let text_failed = match &fault {
                Some(StoredTextFault::Text { ordinal, .. }) => *ordinal == at,
                _ => false,
            };
            if text_failed {
                if let Some(StoredTextFault::Text { error, .. }) = fault {
                    return Err(StoreError::Segment(error));
                }
            }
            return Ok(
                match &segments[at].texts {
                    Some(texts) => read_text(texts, row),
                    None => None,
                },
            );
        }
        at = at + 1;
    }
    Ok(None)
}

impl Store {
    /// The stored body of one exact revision. None means that the revision is
    /// not there, or that it has no text. `fault` says which read failed, where
    /// one did. The handle admits the read as it admits a lexical query.
    pub fn stored_text(
        &mut self,
        segments: &Vec<SegmentFacts>,
        active: &ActiveFacts,
        version: DocumentVersion,
        fault: Option<StoredTextFault>,
    ) -> (result: Result<Option<String>, StoreLexicalError>)
        ensures
            *final(self) == *old(self),
            match old(self).lease_answer() {
                Err(error) => result == Err::<Option<String>, StoreLexicalError>(
                    StoreLexicalError::Query(QueryError::Store(error)),
                ),
                Ok(_) => match version_text(segments@, *active, version, fault) {
                    Err(error) => result == Err::<Option<String>, StoreLexicalError>(
                        StoreLexicalError::Query(QueryError::Store(error)),
                    ),
                    Ok(None) => result == Ok::<Option<String>, StoreLexicalError>(None),
                    Ok(Some(stored)) => result matches Ok(Some(text)) && text@ == stored@,
                },
            },
    {
        match self.admit_lexical_query() {
            Ok(_) => {},
            Err(error) => {
                return Err(StoreLexicalError::Query(error));
            },
        }
        let found = match find_stored(segments, active, version, fault) {
            Err(error) => Err(StoreLexicalError::Query(QueryError::Store(error))),
            Ok(None) => Ok(None),
            Ok(Some(text)) => Ok(Some(text.clone())),
        };
        self.query_finished();
        found
    }
}

/// A materialized row is the row that was ranked: its text is that of the very
/// version, at the very place.
pub proof fn lemma_materialized_text_is_the_ranked_version(
    segments: Seq<SegmentFacts>,
    active: ActiveFacts,
    address: ResultAddress,
)
    requires
        text_of_address(segments, active, address, Ok(())) is Ok,
    ensures
        row_contents(segments, active, address.row_id) matches Some(contents) && contents.0
            == address.document && contents.1 == Some(
            text_of_address(segments, active, address, Ok(()))->Ok_0,
        ),
{
}

} // verus!
