//! Plain facts of a pinned snapshot that queries read.

use crate::error::SegmentError;
use crate::error::StoreError;
use crate::ids::DocumentVersion;
use crate::ids::SegmentId;
use vstd::prelude::*;

verus! {

/// Facts of one sealed segment.
#[derive(Debug)]
pub struct SegmentFacts {
    pub id: SegmentId,
    pub row_count: u32,
    pub dims: u32,
    pub scheme: u16,
    /// Whether a graph region is published.
    pub has_graph: bool,
    /// Whether a lexical region is published.
    pub has_postings: bool,
    /// Pinned document of each row; shorter where rows have none.
    pub documents: Vec<Option<DocumentVersion>>,
    /// Whether each row is alive; a row behind the end is not.
    pub alive: Vec<bool>,
    /// Stored text of each row, where the segment stores text.
    pub texts: Option<Vec<Option<String>>>,
}

/// Facts of the active segment.
#[derive(Debug)]
pub struct ActiveFacts {
    pub row_count: usize,
    pub has_text: bool,
    pub indexed_through_seq: u64,
    pub documents: Vec<Option<DocumentVersion>>,
    pub alive: Vec<bool>,
    pub texts: Vec<Option<String>>,
}

/// A sealed document that could not be read: which of the hits names it, and
/// why.
#[derive(Clone, Debug, PartialEq, Eq)]
pub struct UnreadDocument {
    pub hit: usize,
    pub error: SegmentError,
}

/// Why the document of the hit at `at` could not be read, where it could not.
pub open spec fn unread_at(unread: Option<UnreadDocument>, at: int) -> Option<SegmentError> {
    match unread {
        Some(fault) if fault.hit == at => Some(fault.error),
        _ => None,
    }
}

/// Takes the failure to read the document of the hit at `at`, where there is
/// one.
pub fn take_unread(unread: &mut Option<UnreadDocument>, at: usize) -> (error: Option<SegmentError>)
    ensures
        error == unread_at(*old(unread), at as int),
        *final(unread) == if error is Some {
            None
        } else {
            *old(unread)
        },
{
    let here = match unread {
        Some(fault) => fault.hit == at,
        None => false,
    };
    if !here {
        return None;
    }
    match unread.take() {
        Some(fault) => Some(fault.error),
        None => None,
    }
}

/// Why a row could not be read: its text, or its sealed document.
#[derive(Clone, Debug, PartialEq, Eq)]
pub enum RowFault {
    Text(StoreError),
    Document(SegmentError),
}

/// A row that could not be read: which of the hits names it, and why.
#[derive(Clone, Debug, PartialEq, Eq)]
pub struct UnreadRow {
    pub hit: usize,
    pub fault: RowFault,
}

/// Why the row of the hit at `at` could not be read, where it could not.
pub open spec fn unread_row_at(unread: Option<UnreadRow>, at: int) -> Option<RowFault> {
    match unread {
        Some(row) if row.hit == at => Some(row.fault),
        _ => None,
    }
}

/// Takes the failure to read the row of the hit at `at`, where there is one.
pub fn take_unread_row(unread: &mut Option<UnreadRow>, at: usize) -> (fault: Option<RowFault>)
    ensures
        fault == unread_row_at(*old(unread), at as int),
        *final(unread) == if fault is Some {
            None
        } else {
            *old(unread)
        },
{
    let here = match unread {
        Some(row) => row.hit == at,
        None => false,
    };
    if !here {
        return None;
    }
    match unread.take() {
        Some(row) => Some(row.fault),
        None => None,
    }
}

/// The document of a row, where it has one.
pub open spec fn document_at(
    documents: Seq<Option<DocumentVersion>>,
    row: nat,
) -> Option<DocumentVersion> {
    if row < documents.len() {
        documents[row as int]
    } else {
        None
    }
}

/// Whether a row is alive.
pub open spec fn alive_at(alive: Seq<bool>, row: nat) -> bool {
    row < alive.len() && alive[row as int]
}

/// Number of live rows among the first `n`.
pub open spec fn live_rows(alive: Seq<bool>, n: nat) -> nat
    decreases n,
{
    if n == 0 {
        0
    } else {
        live_rows(alive, (n - 1) as nat) + if alive_at(alive, (n - 1) as nat) {
            1nat
        } else {
            0nat
        }
    }
}

/// The document of a row, where it has one.
pub fn read_document(documents: &Vec<Option<DocumentVersion>>, row: usize) -> (document: Option<
    DocumentVersion,
>)
    ensures
        document == document_at(documents@, row as nat),
{
    if row < documents.len() {
        documents[row]
    } else {
        None
    }
}

/// Whether a row is alive.
pub fn is_alive(alive: &Vec<bool>, row: u32) -> (result: bool)
    ensures
        result == alive_at(alive@, row as nat),
{
    (row as usize) < alive.len() && alive[row as usize]
}

/// Reports whether any segment has a published graph region. A graph that is
/// due but not built does not count.
pub open spec fn has_graph_spec(segments: Seq<SegmentFacts>) -> bool {
    exists|i: int| 0 <= i < segments.len() && (#[trigger] segments[i]).has_graph
}

/// Reports whether any segment has a published graph region.
pub fn snapshot_has_graph(segments: &Vec<SegmentFacts>) -> (result: bool)
    ensures
        result == has_graph_spec(segments@),
{
    let mut at: usize = 0;
    while at < segments.len()
        invariant
            at <= segments@.len(),
            forall|i: int| 0 <= i < at ==> !(#[trigger] segments@[i]).has_graph,
        decreases segments.len() - at,
    {
        if segments[at].has_graph {
            assert(segments@[at as int].has_graph);
            return true;
        }
        at = at + 1;
    }
    false
}

} // verus!
