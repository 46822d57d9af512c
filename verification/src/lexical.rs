//! Lexical legs: sources, documents, expansions and their failures.

use crate::candidates::saturating_sum;
use crate::candidates::LexicalHit;
use crate::candidates::StructuredLexicalSource;
use crate::corpus::document_at;
use crate::corpus::read_document;
use crate::corpus::take_unread;
use crate::corpus::unread_at;
use crate::corpus::ActiveFacts;
use crate::corpus::RowFault;
use crate::corpus::SegmentFacts;
use crate::corpus::UnreadDocument;
use crate::error::QueryError;
use crate::error::ScanError;
use crate::error::SegmentError;
use crate::error::StoreError;
use crate::fusion::FusionError;
use crate::fusion::FusionLeg;
use crate::fusion::LegFailureKind;
use crate::ids::DocumentVersion;
use crate::ids::GlobalDocId;
use crate::ids::SegmentId;
use crate::score::Double;
use vstd::prelude::*;

verus! {

/// Failure of a lexical query at the store's surface.
#[derive(Clone, Debug, PartialEq, Eq)]
pub enum StoreLexicalError {
    Query(QueryError),
    Filter(String),
    MissingDocumentIdentity { segment_id: SegmentId },
    MissingStoredText { segment_id: SegmentId, row: u32 },
    MissingSnippetMatch { segment: u32, row: u32 },
}

/// Failure while the lexical sources are put together.
#[derive(Clone, Debug, PartialEq, Eq)]
pub enum LexicalAssemblyError {
    Store(StoreError),
    Lexical(String),
    MissingDocumentIdentity(SegmentId),
    Cancelled(ScanError),
}

/// Failure of a lexical search that polls for a stop.
#[derive(Clone, Debug, PartialEq, Eq)]
pub enum ControlledSearchError {
    Index(String),
    Control(ScanError),
}

/// Failure while a hit is joined with its document.
#[derive(Clone, Debug, PartialEq, Eq)]
pub enum LexicalDocumentError {
    SourceOrdinalOutOfRange,
    RowOverflow,
    SealedSourceAbsent,
    Segment(SegmentError),
    MissingDocumentIdentity(SegmentId),
    ActiveRowAbsent,
}

/// Why a lexical source could not be opened: its postings, the document of its
/// first row, its live rows, or its place in the index.
#[derive(Clone, Debug, PartialEq, Eq)]
pub enum SourceFault {
    Postings(StoreError),
    Identity(SegmentError),
    Rows(StoreError),
    Index(String),
}

/// A lexical source that could not be opened: its place among the segments, with
/// the active rows behind the last one, and why.
#[derive(Clone, Debug, PartialEq, Eq)]
pub struct UnopenedSource {
    pub ordinal: usize,
    pub fault: SourceFault,
}

/// Why the source at `ordinal` could not be opened, where it could not.
pub open spec fn unopened_at(unopened: Option<UnopenedSource>, ordinal: int) -> Option<
    SourceFault,
> {
    match unopened {
        Some(source) if source.ordinal == ordinal => Some(source.fault),
        _ => None,
    }
}

fn take_unopened(unopened: &mut Option<UnopenedSource>, ordinal: usize) -> (fault: Option<
    SourceFault,
>)
    ensures
        fault == unopened_at(*old(unopened), ordinal as int),
        *final(unopened) == if fault is Some {
            None
        } else {
            *old(unopened)
        },
{
    let here = match unopened {
        Some(source) => source.ordinal == ordinal,
        None => false,
    };
    if !here {
        return None;
    }
    match unopened.take() {
        Some(source) => Some(source.fault),
        None => None,
    }
}

/// The failure of one sealed segment, if there is one: its postings are read
/// first, then its identity is looked at, then its live rows are indexed. A
/// segment without postings has nothing further to fail.
pub open spec fn source_failure(
    segment: SegmentFacts,
    require_document_identity: bool,
    fault: Option<SourceFault>,
) -> Option<LexicalAssemblyError> {
    let identified = require_document_identity && segment.row_count != 0;
    match fault {
        Some(SourceFault::Postings(error)) => Some(LexicalAssemblyError::Store(error)),
        Some(SourceFault::Identity(error)) if segment.has_postings && identified => Some(
            LexicalAssemblyError::Store(StoreError::Segment(error)),
        ),
        _ => if !segment.has_postings {
            None
        } else if identified && document_at(segment.documents@, 0) is None {
            Some(LexicalAssemblyError::MissingDocumentIdentity(segment.id))
        } else {
            rows_failure(fault)
        },
    }
}

/// The failure to index live rows, if there is one.
pub open spec fn rows_failure(fault: Option<SourceFault>) -> Option<LexicalAssemblyError> {
    match fault {
        Some(SourceFault::Rows(error)) => Some(LexicalAssemblyError::Store(error)),
        Some(SourceFault::Index(text)) => Some(LexicalAssemblyError::Lexical(text)),
        _ => None,
    }
}

/// Outcome of the walk over the segments up to `n`: the sources so far, or the
/// first failure. The stop check of a segment comes before the segment.
pub open spec fn assembled(
    segments: Seq<SegmentFacts>,
    checks: Seq<Result<(), ScanError>>,
    unopened: Option<UnopenedSource>,
    require_document_identity: bool,
    n: nat,
) -> Result<Seq<StructuredLexicalSource>, LexicalAssemblyError>
    decreases n,
{
    if n == 0 {
        Ok(Seq::empty())
    } else {
        let last = n - 1;
        match assembled(segments, checks, unopened, require_document_identity, last as nat) {
            Err(error) => Err(error),
            Ok(sources) => if last < checks.len() && checks[last] is Err {
                Err(LexicalAssemblyError::Cancelled(checks[last]->Err_0))
            } else {
                match source_failure(
                    segments[last],
                    require_document_identity,
                    unopened_at(unopened, last),
                ) {
                    Some(error) => Err(error),
                    None => if segments[last].has_postings {
                        Ok(sources.push(StructuredLexicalSource::Sealed(last as usize)))
                    } else {
                        Ok(sources)
                    },
                }
            },
        }
    }
}

/// Outcome of the walk over all segments and the active rows.
pub open spec fn assembly(
    segments: Seq<SegmentFacts>,
    active: ActiveFacts,
    checks: Seq<Result<(), ScanError>>,
    unopened: Option<UnopenedSource>,
    require_document_identity: bool,
) -> Result<Seq<StructuredLexicalSource>, LexicalAssemblyError> {
    match assembled(segments, checks, unopened, require_document_identity, segments.len()) {
        Err(error) => Err(error),
        Ok(sources) => if active.has_text {
            match rows_failure(unopened_at(unopened, segments.len() as int)) {
                Some(error) => Err(error),
                None => Ok(sources.push(StructuredLexicalSource::Active)),
            }
        } else {
            Ok(sources)
        },
    }
}

proof fn lemma_assembly_failure_sticks(
    segments: Seq<SegmentFacts>,
    checks: Seq<Result<(), ScanError>>,
    unopened: Option<UnopenedSource>,
    require_document_identity: bool,
    n: nat,
    m: nat,
)
    requires
        n <= m,
        assembled(segments, checks, unopened, require_document_identity, n) is Err,
    ensures
        assembled(segments, checks, unopened, require_document_identity, m) == assembled(
            segments,
            checks,
            unopened,
            require_document_identity,
            n,
        ),
    decreases m - n,
{
    if n < m {
        lemma_assembly_failure_sticks(
            segments,
            checks,
            unopened,
            require_document_identity,
            n,
            (m - 1) as nat,
        );
    }
}

fn open_rows(fault: Option<SourceFault>) -> (result: Result<(), LexicalAssemblyError>)
    ensures
        result == match rows_failure(fault) {
            Some(error) => Err(error),
            None => Ok(()),
        },
{
    match fault {
        Some(SourceFault::Rows(error)) => Err(LexicalAssemblyError::Store(error)),
        Some(SourceFault::Index(text)) => Err(LexicalAssemblyError::Lexical(text)),
        _ => Ok(()),
    }
}

fn open_source(
    segment: &SegmentFacts,
    require_document_identity: bool,
    fault: Option<SourceFault>,
) -> (result: Result<(), LexicalAssemblyError>)
    ensures
        result == match source_failure(*segment, require_document_identity, fault) {
            Some(error) => Err(error),
            None => Ok(()),
        },
{
    let identified = require_document_identity && segment.row_count != 0;
    let rest = match fault {
        Some(SourceFault::Postings(error)) => {
            return Err(LexicalAssemblyError::Store(error));
        },
        Some(SourceFault::Identity(error)) => {
            if segment.has_postings && identified {
                return Err(LexicalAssemblyError::Store(StoreError::Segment(error)));
            }
            None
        },
        other => other,
    };
    if !segment.has_postings {
        return Ok(());
    }
    if identified && read_document(&segment.documents, 0).is_none() {
        return Err(LexicalAssemblyError::MissingDocumentIdentity(segment.id));
    }
    open_rows(rest)
}

/// Puts the lexical sources of one admission together: sealed segments with
/// postings in snapshot order, then the active rows where they hold text.
/// `checks` holds what the stop check before each segment said; it is empty
/// where no control is polled. `unopened` is the first source that could not be
/// opened, where there is one.
pub fn assemble_lexical_index(
    segments: &Vec<SegmentFacts>,
    active: &ActiveFacts,
    require_document_identity: bool,
    checks: &Vec<Result<(), ScanError>>,
    unopened: Option<UnopenedSource>,
) -> (result: Result<Vec<StructuredLexicalSource>, LexicalAssemblyError>)
    ensures
        match result {
            Ok(sources) => assembly(
                segments@,
                *active,
                checks@,
                unopened,
                require_document_identity,
            ) == Ok::<Seq<StructuredLexicalSource>, LexicalAssemblyError>(sources@),
            Err(error) => assembly(
                segments@,
                *active,
                checks@,
                unopened,
                require_document_identity,
            ) == Err::<Seq<StructuredLexicalSource>, LexicalAssemblyError>(error),
        },
{
    let mut sources: Vec<StructuredLexicalSource> = Vec::new();
    let ghost whole = unopened;
    let mut pending = unopened;
    let mut at: usize = 0;
    while at < segments.len()
        invariant
            at <= segments@.len(),
            whole == unopened,
            forall|i: int| i >= at ==> unopened_at(pending, i) == #[trigger] unopened_at(whole, i),
            assembled(segments@, checks@, whole, require_document_identity, at as nat) == Ok::<
                Seq<StructuredLexicalSource>,
                LexicalAssemblyError,
            >(sources@),
        decreases segments.len() - at,
    {
        let ghost next = assembled(
            segments@,
            checks@,
            whole,
            require_document_identity,
            (at + 1) as nat,
        );
        if at < checks.len() {
            match checks[at] {
                Ok(_) => {},
                Err(error) => {
                    proof {
                        lemma_assembly_failure_sticks(
                            segments@,
                            checks@,
                            whole,
                            require_document_identity,
                            (at + 1) as nat,
                            segments@.len(),
                        );
                    }
                    return Err(LexicalAssemblyError::Cancelled(error));
                },
            }
        }
        assert(unopened_at(pending, at as int) == unopened_at(whole, at as int));
        let fault = take_unopened(&mut pending, at);
        match open_source(&segments[at], require_document_identity, fault) {
            Ok(_) => {},
            Err(error) => {
                proof {
                    lemma_assembly_failure_sticks(
                        segments@,
                        checks@,
                        whole,
                        require_document_identity,
                        (at + 1) as nat,
                        segments@.len(),
                    );
                }
                return Err(error);
            },
        }
        if segments[at].has_postings {
            sources.push(StructuredLexicalSource::Sealed(at));
        }
        at = at + 1;
    }
    if active.has_text {
        assert(unopened_at(pending, at as int) == unopened_at(whole, at as int));
        let fault = take_unopened(&mut pending, at);
        open_rows(fault)?;
        sources.push(StructuredLexicalSource::Active);
    }
    Ok(sources)
}

/// An assembly failure at the store's surface.
pub fn map_store_lexical_assembly_error(error: LexicalAssemblyError) -> (result: StoreLexicalError)
    ensures
        result == match error {
            LexicalAssemblyError::Store(store) => StoreLexicalError::Query(
                QueryError::Store(store),
            ),
            LexicalAssemblyError::Lexical(text) => StoreLexicalError::Filter(text),
            LexicalAssemblyError::MissingDocumentIdentity(segment_id) =>
                StoreLexicalError::MissingDocumentIdentity { segment_id },
            LexicalAssemblyError::Cancelled(scan) => StoreLexicalError::Query(
                QueryError::Scan(scan),
            ),
        },
{
    match error {
        LexicalAssemblyError::Store(store) => StoreLexicalError::Query(QueryError::Store(store)),
        LexicalAssemblyError::Lexical(text) => StoreLexicalError::Filter(text),
        LexicalAssemblyError::MissingDocumentIdentity(segment_id) => {
            StoreLexicalError::MissingDocumentIdentity { segment_id }
        },
        LexicalAssemblyError::Cancelled(scan) => StoreLexicalError::Query(QueryError::Scan(scan)),
    }
}

/// A failure of the lexical leg of this kind and with these words.
pub open spec fn is_lexical_leg(
    error: FusionError,
    kind: LegFailureKind,
    detail: Seq<char>,
) -> bool {
    error matches FusionError::Leg { leg, kind: seen, detail: text } && leg == FusionLeg::Lexical
        && seen == kind && text@ == detail
}

/// The words for a sealed lexical segment without documents.
pub open spec fn missing_identity_text(segment_id: SegmentId) -> Seq<char> {
    "sealed lexical segment "@ + segment_id.spec_label() + " has no document identity"@
}

fn missing_identity_message(segment_id: SegmentId) -> (text: String)
    ensures
        text@ == missing_identity_text(segment_id),
{
    let mut out = "sealed lexical segment ".to_owned();
    segment_id.push_label(&mut out);
    out.append(" has no document identity");
    out
}

/// What an assembly failure of a hybrid query is reported as.
pub open spec fn is_assembly_leg(
    error: FusionError,
    reason: LexicalAssemblyError,
    inner: Seq<char>,
) -> bool {
    match reason {
        LexicalAssemblyError::Store(store) => is_lexical_leg(
            error,
            LegFailureKind::Store(store.spec_kind()),
            store.spec_message(inner),
        ),
        LexicalAssemblyError::Lexical(text) => is_lexical_leg(
            error,
            LegFailureKind::Lexical,
            text@,
        ),
        LexicalAssemblyError::MissingDocumentIdentity(segment_id) => is_lexical_leg(
            error,
            LegFailureKind::Invariant,
            missing_identity_text(segment_id),
        ),
        LexicalAssemblyError::Cancelled(scan) => error.stands_for(
            QueryError::Scan(scan),
            FusionLeg::Vector,
            inner,
        ),
    }
}

/// An assembly failure of a hybrid query. `inner` is how the layer below words
/// its own failure.
pub fn map_fusion_lexical_assembly_error(error: LexicalAssemblyError, inner: &str) -> (result:
    FusionError)
    ensures
        is_assembly_leg(result, error, inner@),
{
    match error {
        LexicalAssemblyError::Store(store) => FusionError::Leg {
            leg: FusionLeg::Lexical,
            kind: LegFailureKind::Store(store.kind()),
            detail: store.message(inner),
        },
        LexicalAssemblyError::Lexical(text) => FusionError::Leg {
            leg: FusionLeg::Lexical,
            kind: LegFailureKind::Lexical,
            detail: text,
        },
        LexicalAssemblyError::MissingDocumentIdentity(segment_id) => FusionError::Leg {
            leg: FusionLeg::Lexical,
            kind: LegFailureKind::Invariant,
            detail: missing_identity_message(segment_id),
        },
        LexicalAssemblyError::Cancelled(scan) => FusionError::from_query(
            QueryError::Scan(scan),
            FusionLeg::Vector,
            inner,
        ),
    }
}

/// A controlled search failure at the store's surface.
pub open spec fn controlled_failure(error: ControlledSearchError) -> StoreLexicalError {
    match error {
        ControlledSearchError::Index(text) => StoreLexicalError::Filter(text),
        ControlledSearchError::Control(scan) => StoreLexicalError::Query(QueryError::Scan(scan)),
    }
}

/// A controlled search failure at the store's surface.
pub fn map_store_controlled_lexical_error(error: ControlledSearchError) -> (result:
    StoreLexicalError)
    ensures
        result == controlled_failure(error),
{
    match error {
        ControlledSearchError::Index(text) => StoreLexicalError::Filter(text),
        ControlledSearchError::Control(scan) => StoreLexicalError::Query(QueryError::Scan(scan)),
    }
}

/// A controlled search failure of a hybrid query.
pub fn map_fusion_controlled_lexical_error(error: ControlledSearchError, inner: &str) -> (result:
    FusionError)
    ensures
        match error {
            ControlledSearchError::Index(text) => is_lexical_leg(
                result,
                LegFailureKind::Lexical,
                text@,
            ),
            ControlledSearchError::Control(scan) => result.stands_for(
                QueryError::Scan(scan),
                FusionLeg::Vector,
                inner@,
            ),
        },
{
    match error {
        ControlledSearchError::Index(text) => FusionError::Leg {
            leg: FusionLeg::Lexical,
            kind: LegFailureKind::Lexical,
            detail: text,
        },
        ControlledSearchError::Control(scan) => FusionError::from_query(
            QueryError::Scan(scan),
            FusionLeg::Vector,
            inner,
        ),
    }
}

/// The document of a hit, or why it has none.
pub open spec fn hit_document(
    segments: Seq<SegmentFacts>,
    active: ActiveFacts,
    sources: Seq<StructuredLexicalSource>,
    doc: GlobalDocId,
    require_document_identity: bool,
    unread: Option<SegmentError>,
) -> Result<Option<DocumentVersion>, LexicalDocumentError> {
    if doc.segment >= sources.len() {
        Err(LexicalDocumentError::SourceOrdinalOutOfRange)
    } else {
        match sources[doc.segment as int] {
            StructuredLexicalSource::Sealed(ordinal) => if ordinal >= segments.len() {
                Err(LexicalDocumentError::SealedSourceAbsent)
            } else if unread is Some {
                Err(LexicalDocumentError::Segment(unread->Some_0))
            } else {
                let document = document_at(segments[ordinal as int].documents@, doc.row as nat);
                if require_document_identity && document is None {
                    Err(
                        LexicalDocumentError::MissingDocumentIdentity(segments[ordinal as int].id),
                    )
                } else {
                    Ok(document)
                }
            },
            StructuredLexicalSource::Active => {
                let document = document_at(active.documents@, doc.row as nat);
                if require_document_identity && document is None {
                    Err(LexicalDocumentError::ActiveRowAbsent)
                } else {
                    Ok(document)
                }
            },
        }
    }
}

/// Joins a hit with its pinned document; `unread` says why a sealed document
/// could not be read, where it could not.
pub fn structured_lexical_document(
    segments: &Vec<SegmentFacts>,
    active: &ActiveFacts,
    sources: &Vec<StructuredLexicalSource>,
    doc: GlobalDocId,
    require_document_identity: bool,
    unread: Option<SegmentError>,
) -> (result: Result<Option<DocumentVersion>, LexicalDocumentError>)
    ensures
        result == hit_document(
            segments@,
            *active,
            sources@,
            doc,
            require_document_identity,
            unread,
        ),
{
    let slot: usize = doc.segment as usize;
    if slot >= sources.len() {
        return Err(LexicalDocumentError::SourceOrdinalOutOfRange);
    }
    let row: usize = doc.row as usize;
    match sources[slot] {
        StructuredLexicalSource::Sealed(ordinal) => {
            if ordinal >= segments.len() {
                return Err(LexicalDocumentError::SealedSourceAbsent);
            }
            if let Some(error) = unread {
                return Err(LexicalDocumentError::Segment(error));
            }
            let document = read_document(&segments[ordinal].documents, row);
            if require_document_identity && document.is_none() {
                return Err(LexicalDocumentError::MissingDocumentIdentity(segments[ordinal].id));
            }
            Ok(document)
        },
        StructuredLexicalSource::Active => {
            let document = read_document(&active.documents, row);
            if require_document_identity && document.is_none() {
                return Err(LexicalDocumentError::ActiveRowAbsent);
            }
            Ok(document)
        },
    }
}

/// A join failure at the store's surface.
pub fn map_store_lexical_document_error(error: LexicalDocumentError) -> (result: StoreLexicalError)
    ensures
        result == match error {
            LexicalDocumentError::Segment(segment) => StoreLexicalError::Query(
                QueryError::Store(StoreError::Segment(segment)),
            ),
            LexicalDocumentError::MissingDocumentIdentity(segment_id) =>
                StoreLexicalError::MissingDocumentIdentity { segment_id },
            _ => StoreLexicalError::Query(QueryError::Store(StoreError::ActiveRowOverflow)),
        },
{
    match error {
        LexicalDocumentError::SourceOrdinalOutOfRange
        | LexicalDocumentError::RowOverflow
        | LexicalDocumentError::SealedSourceAbsent
        | LexicalDocumentError::ActiveRowAbsent => StoreLexicalError::Query(
            QueryError::Store(StoreError::ActiveRowOverflow),
        ),
        LexicalDocumentError::Segment(segment) => StoreLexicalError::Query(
            QueryError::Store(StoreError::Segment(segment)),
        ),
        LexicalDocumentError::MissingDocumentIdentity(segment_id) => {
            StoreLexicalError::MissingDocumentIdentity { segment_id }
        },
    }
}

/// The words of a join failure of a hybrid query.
pub open spec fn document_error_text(error: LexicalDocumentError) -> Seq<char> {
    match error {
        LexicalDocumentError::SourceOrdinalOutOfRange =>
            "lexical source ordinal is out of range"@,
        LexicalDocumentError::RowOverflow => "lexical row exceeds usize"@,
        LexicalDocumentError::SealedSourceAbsent => "lexical sealed source is absent"@,
        LexicalDocumentError::Segment(segment) => segment.spec_message(),
        LexicalDocumentError::MissingDocumentIdentity(segment_id) => missing_identity_text(
            segment_id,
        ),
        LexicalDocumentError::ActiveRowAbsent => "lexical active source row is absent"@,
    }
}

/// A join failure of a hybrid query: a segment's own failure is of
/// `segment_kind`, any other of `invariant_kind`.
pub fn map_fusion_lexical_document_error(
    error: LexicalDocumentError,
    invariant_kind: LegFailureKind,
    segment_kind: LegFailureKind,
) -> (result: FusionError)
    ensures
        is_lexical_leg(
            result,
            if error is Segment {
                segment_kind
            } else {
                invariant_kind
            },
            document_error_text(error),
        ),
{
    let (kind, detail): (LegFailureKind, String) = match error {
        LexicalDocumentError::SourceOrdinalOutOfRange => (
            invariant_kind,
            "lexical source ordinal is out of range".to_owned(),
        ),
        LexicalDocumentError::RowOverflow => (
            invariant_kind,
            "lexical row exceeds usize".to_owned(),
        ),
        LexicalDocumentError::SealedSourceAbsent => (
            invariant_kind,
            "lexical sealed source is absent".to_owned(),
        ),
        LexicalDocumentError::Segment(segment) => (segment_kind, segment.message()),
        LexicalDocumentError::MissingDocumentIdentity(segment_id) => (
            invariant_kind,
            missing_identity_message(segment_id),
        ),
        LexicalDocumentError::ActiveRowAbsent => (
            invariant_kind,
            "lexical active source row is absent".to_owned(),
        ),
    };
    FusionError::Leg { leg: FusionLeg::Lexical, kind, detail }
}

/// A join failure of the structured leg.
pub fn map_structured_leg_document_error(error: LexicalDocumentError) -> (result: FusionError)
    ensures
        is_lexical_leg(result, LegFailureKind::Lexical, document_error_text(error)),
{
    map_fusion_lexical_document_error(error, LegFailureKind::Lexical, LegFailureKind::Lexical)
}

/// A join failure of the term leg.
pub fn map_term_leg_document_error(error: LexicalDocumentError) -> (result: FusionError)
    ensures
        is_lexical_leg(
            result,
            if error is Segment {
                LegFailureKind::Segment
            } else {
                LegFailureKind::Invariant
            },
            document_error_text(error),
        ),
{
    map_fusion_lexical_document_error(error, LegFailureKind::Invariant, LegFailureKind::Segment)
}

/// The stored text of a row, where it has one.
pub open spec fn text_at(texts: Seq<Option<String>>, row: nat) -> Option<String> {
    if row < texts.len() {
        texts[row as int]
    } else {
        None
    }
}

/// The stored text of a sealed row, where the segment stores text.
pub open spec fn sealed_text_at(segment: SegmentFacts, row: nat) -> Option<String> {
    match segment.texts {
        Some(texts) => text_at(texts@, row),
        None => None,
    }
}

/// Text and document of a row, or why a lexical query cannot use it.
pub open spec fn row_facts(
    segments: Seq<SegmentFacts>,
    active: ActiveFacts,
    sources: Seq<StructuredLexicalSource>,
    doc: GlobalDocId,
    unread: Option<RowFault>,
) -> Result<(String, DocumentVersion), StoreLexicalError> {
    let absent = StoreLexicalError::Query(QueryError::Store(StoreError::ActiveRowOverflow));
    if doc.segment >= sources.len() {
        Err(absent)
    } else {
        match sources[doc.segment as int] {
            StructuredLexicalSource::Sealed(ordinal) => if ordinal >= segments.len() {
                Err(absent)
            } else {
                let segment = segments[ordinal as int];
                match sealed_text_at(segment, doc.row as nat) {
                    _ if unread is Some && unread->Some_0 is Text => Err(
                        StoreLexicalError::Query(QueryError::Store(unread->Some_0->Text_0)),
                    ),
                    None => Err(
                        StoreLexicalError::MissingStoredText {
                            segment_id: segment.id,
                            row: doc.row,
                        },
                    ),
                    Some(text) => match document_at(segment.documents@, doc.row as nat) {
                        _ if unread is Some => Err(
                            StoreLexicalError::Query(
                                QueryError::Store(
                                    StoreError::Segment(unread->Some_0->Document_0),
                                ),
                            ),
                        ),
                        None => Err(
                            StoreLexicalError::MissingDocumentIdentity { segment_id: segment.id },
                        ),
                        Some(document) => Ok((text, document)),
                    },
                }
            },
            StructuredLexicalSource::Active => match text_at(active.texts@, doc.row as nat) {
                _ if unread is Some && unread->Some_0 is Text => Err(
                    StoreLexicalError::Query(QueryError::Store(unread->Some_0->Text_0)),
                ),
                None => Err(absent),
                Some(text) => match document_at(active.documents@, doc.row as nat) {
                    None => Err(absent),
                    Some(document) => Ok((text, document)),
                },
            },
        }
    }
}

/// Reads the stored text of a row, where it has one.
pub fn read_text(texts: &Vec<Option<String>>, row: usize) -> (text: Option<&String>)
    ensures
        text == match text_at(texts@, row as nat) {
            Some(string) => Some(&string),
            None => None,
        },
{
    if row < texts.len() {
        texts[row].as_ref()
    } else {
        None
    }
}

/// Reads the exact row text and document that are pinned for a hit; `unread`
/// says why the row could not be read, where it could not.
pub fn structured_lexical_row<'a>(
    segments: &'a Vec<SegmentFacts>,
    active: &'a ActiveFacts,
    sources: &Vec<StructuredLexicalSource>,
    doc: GlobalDocId,
    unread: Option<RowFault>,
) -> (result: Result<(&'a String, DocumentVersion), StoreLexicalError>)
    ensures
        match result {
            Ok(pair) => row_facts(segments@, *active, sources@, doc, unread) == Ok::<
                (String, DocumentVersion),
                StoreLexicalError,
            >((*pair.0, pair.1)),
            Err(error) => row_facts(segments@, *active, sources@, doc, unread) == Err::<
                (String, DocumentVersion),
                StoreLexicalError,
            >(error),
        },
{
    let slot: usize = doc.segment as usize;
    if slot >= sources.len() {
        return Err(StoreLexicalError::Query(QueryError::Store(StoreError::ActiveRowOverflow)));
    }
    let row: usize = doc.row as usize;
    match sources[slot] {
        StructuredLexicalSource::Sealed(ordinal) => {
            if ordinal >= segments.len() {
                return Err(
                    StoreLexicalError::Query(QueryError::Store(StoreError::ActiveRowOverflow)),
                );
            }
            let segment = &segments[ordinal];
            let document_fault = match unread {
                Some(RowFault::Text(error)) => {
                    return Err(StoreLexicalError::Query(QueryError::Store(error)));
                },
                Some(RowFault::Document(error)) => Some(error),
                None => None,
            };
            let text = match &segment.texts {
                Some(texts) => read_text(texts, row),
                None => None,
            };
            match text {
                None => Err(
                    StoreLexicalError::MissingStoredText { segment_id: segment.id, row: doc.row },
                ),
                Some(string) => {
                    if let Some(error) = document_fault {
                        return Err(
                            StoreLexicalError::Query(QueryError::Store(StoreError::Segment(error))),
                        );
                    }
                    match read_document(&segment.documents, row) {
                        None => Err(
                            StoreLexicalError::MissingDocumentIdentity { segment_id: segment.id },
                        ),
                        Some(document) => Ok((string, document)),
                    }
                },
            }
        },
        StructuredLexicalSource::Active => {
            if let Some(RowFault::Text(error)) = unread {
                return Err(StoreLexicalError::Query(QueryError::Store(error)));
            }
            match read_text(&active.texts, row) {
                None => Err(
                    StoreLexicalError::Query(QueryError::Store(StoreError::ActiveRowOverflow)),
                ),
                Some(string) => match read_document(&active.documents, row) {
                    None => Err(
                        StoreLexicalError::Query(QueryError::Store(StoreError::ActiveRowOverflow)),
                    ),
                    Some(document) => Ok((string, document)),
                },
            }
        },
    }
}

/// How a term matched.
#[derive(Clone, Copy, Debug, PartialEq, Eq, Structural)]
pub enum LexicalMatchKind {
    Term,
    Prefix,
    Fuzzy,
    Phonetic,
}

/// One term that a query expands to, with its boost in thousandths.
#[derive(Clone, Debug, PartialEq, Eq)]
pub struct LexicalExpansion {
    pub term: String,
    pub boost_thousandths: u32,
    pub kind: LexicalMatchKind,
}

/// Boost of a term that was written as it is.
pub const UNIT_BOOST_THOUSANDTHS: u32 = 1000;

/// Each term of a plain query, with unit boost.
pub open spec fn plain_expansions(
    expansions: Seq<LexicalExpansion>,
    terms: Seq<String>,
) -> bool {
    &&& expansions.len() == terms.len()
    &&& forall|i: int|
        0 <= i < terms.len() ==> (#[trigger] expansions[i]).term@ == terms[i]@
            && expansions[i].boost_thousandths == UNIT_BOOST_THOUSANDTHS && expansions[i].kind
            == LexicalMatchKind::Term
}

/// Each term of a plain query, with unit boost.
pub fn term_expansions(terms: &Vec<String>) -> (expansions: Vec<LexicalExpansion>)
    ensures
        plain_expansions(expansions@, terms@),
{
    let mut expansions: Vec<LexicalExpansion> = Vec::with_capacity(terms.len());
    let mut at: usize = 0;
    while at < terms.len()
        invariant
            at <= terms@.len(),
            plain_expansions(expansions@, terms@.take(at as int)),
        decreases terms.len() - at,
    {
        expansions.push(
            LexicalExpansion {
                term: terms[at].clone(),
                boost_thousandths: UNIT_BOOST_THOUSANDTHS,
                kind: LexicalMatchKind::Term,
            },
        );
        at = at + 1;
        assert forall|i: int| 0 <= i < at implies (#[trigger] expansions@[i]).term@
            == terms@.take(at as int)[i]@ && expansions@[i].boost_thousandths
            == UNIT_BOOST_THOUSANDTHS && expansions@[i].kind == LexicalMatchKind::Term by {
            if i < at - 1 {
                assert(terms@.take(at - 1)[i] == terms@[i]);
            }
        }
    }
    assert(terms@.take(at as int) == terms@);
    expansions
}

/// A hit of the lexical engine.
#[derive(Clone, Copy, Debug, PartialEq, Eq, Structural)]
pub struct ScoredDoc {
    pub doc: GlobalDocId,
    pub score: Double,
}

/// How the lexical engine walks its postings.
#[derive(Clone, Copy, Debug, PartialEq, Eq, Structural)]
pub enum LexicalStrategy {
    /// Walk the allowed rows and look them up.
    AllowListDriven,
    /// Walk the postings and prune.
    Pruned,
}

/// Sum of counts that stays at its type's maximum.
pub open spec fn saturating_total(counts: Seq<u64>) -> u64
    decreases counts.len(),
{
    if counts.len() == 0 {
        0
    } else {
        saturating_sum(saturating_total(counts.drop_last()), counts.last())
    }
}

/// A product that stays at its type's maximum.
pub open spec fn saturating_product(left: u64, right: u64) -> u64 {
    if left * right > u64::MAX {
        u64::MAX
    } else {
        (left * right) as u64
    }
}

/// Picks the walk: by allowed rows where there are few of them, measured by
/// `divisor` against the documents.
pub fn exact_hybrid_lexical_strategy(
    allowed_rows: &Vec<u64>,
    divisor: u64,
    document_count: u64,
) -> (strategy: LexicalStrategy)
    ensures
        strategy == if saturating_product(saturating_total(allowed_rows@), divisor)
            <= document_count {
            LexicalStrategy::AllowListDriven
        } else {
            LexicalStrategy::Pruned
        },
{
    let mut allowed: u64 = 0;
    let mut at: usize = 0;
    while at < allowed_rows.len()
        invariant
            at <= allowed_rows@.len(),
            allowed == saturating_total(allowed_rows@.take(at as int)),
        decreases allowed_rows.len() - at,
    {
        assert(allowed_rows@.take(at + 1).drop_last() == allowed_rows@.take(at as int));
        allowed = allowed.saturating_add(allowed_rows[at]);
        at = at + 1;
    }
    assert(allowed_rows@.take(at as int) == allowed_rows@);
    assert((allowed as int) * (divisor as int) <= u64::MAX * u64::MAX) by (nonlinear_arith)
        requires
            0 <= allowed <= u64::MAX,
            0 <= divisor <= u64::MAX,
    ;
    let exact: u128 = (allowed as u128) * (divisor as u128);
    let product: u64 = if exact > u64::MAX as u128 {
        u64::MAX
    } else {
        exact as u64
    };
    if product <= document_count {
        LexicalStrategy::AllowListDriven
    } else {
        LexicalStrategy::Pruned
    }
}

/// Ends a search of the lexical leg. A walk by allowed rows polls for a stop
/// itself; one by postings is checked `before` and `after`.
pub fn exact_hybrid_lexical_search<R>(
    strategy: LexicalStrategy,
    before: Result<(), ScanError>,
    searched: Result<R, ControlledSearchError>,
    after: Result<(), ScanError>,
    inner: &str,
) -> (result: Result<R, FusionError>)
    ensures
        ({
            let polled = strategy == LexicalStrategy::Pruned;
            if polled && before is Err {
                result matches Err(error) && error.stands_for(
                    QueryError::Scan(before->Err_0),
                    FusionLeg::Vector,
                    inner@,
                )
            } else {
                match searched {
                    Err(ControlledSearchError::Index(text)) => result matches Err(error)
                        && is_lexical_leg(error, LegFailureKind::Lexical, text@),
                    Err(ControlledSearchError::Control(scan)) => result matches Err(error)
                        && error.stands_for(QueryError::Scan(scan), FusionLeg::Vector, inner@),
                    Ok(found) => if polled && after is Err {
                        result matches Err(error) && error.stands_for(
                            QueryError::Scan(after->Err_0),
                            FusionLeg::Vector,
                            inner@,
                        )
                    } else {
                        result == Ok::<R, FusionError>(found)
                    },
                }
            }
        }),
{
    let polled = match strategy {
        LexicalStrategy::AllowListDriven => false,
        LexicalStrategy::Pruned => true,
    };
    if polled {
        if let Err(scan) = before {
            return Err(FusionError::from_query(QueryError::Scan(scan), FusionLeg::Vector, inner));
        }
    }
    let found = match searched {
        Ok(found) => found,
        Err(error) => {
            return Err(map_fusion_controlled_lexical_error(error, inner));
        },
    };
    if polled {
        if let Err(scan) = after {
            return Err(FusionError::from_query(QueryError::Scan(scan), FusionLeg::Vector, inner));
        }
    }
    Ok(found)
}

/// Hits that one lexical leg is asked for: no more than there are documents.
pub open spec fn width_of_leg(bound: usize, document_count: u64) -> usize {
    if document_count <= bound {
        document_count as usize
    } else {
        bound
    }
}

/// Hits that one lexical leg is asked for.
pub fn leg_width(bound: usize, document_count: u64) -> (k: usize)
    ensures
        k == width_of_leg(bound, document_count),
{
    if document_count <= bound as u64 {
        document_count as usize
    } else {
        bound
    }
}

/// Hits joined with their documents, or the first failure.
pub open spec fn joined_hits(
    segments: Seq<SegmentFacts>,
    active: ActiveFacts,
    sources: Seq<StructuredLexicalSource>,
    hits: Seq<ScoredDoc>,
    unread: Option<UnreadDocument>,
) -> Result<Seq<LexicalHit>, LexicalDocumentError>
    decreases hits.len(),
{
    if hits.len() == 0 {
        Ok(Seq::empty())
    } else {
        match joined_hits(segments, active, sources, hits.drop_last(), unread) {
            Err(error) => Err(error),
            Ok(joined) => match hit_document(
                segments,
                active,
                sources,
                hits.last().doc,
                false,
                unread_at(unread, hits.len() - 1),
            ) {
                Err(error) => Err(error),
                Ok(document) => Ok(
                    joined.push(
                        LexicalHit {
                            doc: hits.last().doc,
                            document,
                            bm25: hits.last().score,
                        },
                    ),
                ),
            },
        }
    }
}

proof fn lemma_join_failure_sticks(
    segments: Seq<SegmentFacts>,
    active: ActiveFacts,
    sources: Seq<StructuredLexicalSource>,
    hits: Seq<ScoredDoc>,
    unread: Option<UnreadDocument>,
    n: int,
)
    requires
        0 <= n <= hits.len(),
        joined_hits(segments, active, sources, hits.take(n), unread) is Err,
    ensures
        joined_hits(segments, active, sources, hits, unread) == joined_hits(
            segments,
            active,
            sources,
            hits.take(n),
            unread,
        ),
    decreases hits.len() - n,
{
    if n < hits.len() {
        assert(hits.take(n + 1).drop_last() == hits.take(n));
        lemma_join_failure_sticks(segments, active, sources, hits, unread, n + 1);
    } else {
        assert(hits.take(n) == hits);
    }
}

/// Joins the hits of a leg with their pinned documents; `unread` is the first
/// document that could not be read, where there is one.
pub fn join_hits(
    segments: &Vec<SegmentFacts>,
    active: &ActiveFacts,
    sources: &Vec<StructuredLexicalSource>,
    hits: &Vec<ScoredDoc>,
    unread: Option<UnreadDocument>,
) -> (result: Result<Vec<LexicalHit>, LexicalDocumentError>)
    ensures
        match result {
            Ok(joined) => joined_hits(segments@, *active, sources@, hits@, unread) == Ok::<
                Seq<LexicalHit>,
                LexicalDocumentError,
            >(joined@),
            Err(error) => joined_hits(segments@, *active, sources@, hits@, unread) == Err::<
                Seq<LexicalHit>,
                LexicalDocumentError,
            >(error),
        },
{
    let mut joined: Vec<LexicalHit> = Vec::with_capacity(hits.len());
    let ghost whole = unread;
    let mut pending = unread;
    let mut at: usize = 0;
    while at < hits.len()
        invariant
            at <= hits@.len(),
            whole == unread,
            forall|i: int| i >= at ==> unread_at(pending, i) == #[trigger] unread_at(whole, i),
            joined_hits(segments@, *active, sources@, hits@.take(at as int), whole) == Ok::<
                Seq<LexicalHit>,
                LexicalDocumentError,
            >(joined@),
        decreases hits.len() - at,
    {
        let ghost prefix = hits@.take(at + 1);
        assert(prefix.drop_last() == hits@.take(at as int));
        assert(prefix.last() == hits@[at as int]);
        let hit = hits[at];
        assert(unread_at(pending, at as int) == unread_at(whole, at as int));
        let fault = take_unread(&mut pending, at);
        match structured_lexical_document(segments, active, sources, hit.doc, false, fault) {
            Ok(document) => {
                joined.push(LexicalHit { doc: hit.doc, document, bm25: hit.score });
            },
            Err(error) => {
                proof {
                    lemma_join_failure_sticks(segments@, *active, sources@, hits@, whole, at + 1);
                }
                return Err(error);
            },
        }
        at = at + 1;
    }
    assert(hits@.take(at as int) == hits@);
    Ok(joined)
}

} // verus!
