//! Identities of segments, rows, documents and epochs.

use crate::text::decimal;
use crate::text::push_decimal;
use vstd::prelude::*;

verus! {

/// Identity of one immutable segment; identities are ordered by value.
#[derive(Clone, Copy, Debug, PartialEq, Eq, Hash, Structural)]
pub struct SegmentId {
    pub value: u128,
}

impl SegmentId {
    /// How the identity reads in messages.
    pub open spec fn spec_label(self) -> Seq<char> {
        decimal(self.value as nat)
    }

    /// Appends the identity's text to `out`.
    pub fn push_label(self, out: &mut String)
        ensures
            final(out)@ == old(out)@ + self.spec_label(),
    {
        push_decimal(out, self.value);
    }
}

/// Where a row lives: the mutable active segment or one sealed segment.
#[derive(Clone, Copy, Debug, PartialEq, Eq, Hash, Structural)]
pub enum RowSource {
    Active,
    Sealed(SegmentId),
}

impl RowSource {
    /// Rank of the source: the active segment comes first, sealed segments
    /// follow by identity.
    pub open spec fn rank(self) -> int {
        match self {
            RowSource::Active => -1,
            RowSource::Sealed(id) => id.value as int,
        }
    }

    /// Whether this source ranks before `other`.
    pub fn precedes(self, other: RowSource) -> (result: bool)
        ensures
            result == (self.rank() < other.rank()),
    {
        match (self, other) {
            (RowSource::Active, RowSource::Active) => false,
            (RowSource::Active, RowSource::Sealed(_)) => true,
            (RowSource::Sealed(_), RowSource::Active) => false,
            (RowSource::Sealed(left), RowSource::Sealed(right)) => left.value < right.value,
        }
    }
}

/// Physical address of one row.
#[derive(Clone, Copy, Debug, PartialEq, Eq, Hash, Structural)]
pub struct GlobalRowId {
    pub source: RowSource,
    pub local_row: u32,
}

/// Order of two physical rows: source rank first, then local row.
pub open spec fn row_before(left: GlobalRowId, right: GlobalRowId) -> bool {
    left.source.rank() < right.source.rank() || (left.source.rank() == right.source.rank()
        && left.local_row < right.local_row)
}

impl GlobalRowId {
    /// The address of `local_row` within `source`.
    pub fn new(source: RowSource, local_row: u32) -> (id: GlobalRowId)
        ensures
            id == (GlobalRowId { source, local_row }),
    {
        GlobalRowId { source, local_row }
    }

    /// Whether this row comes before `other`.
    pub fn precedes(self, other: GlobalRowId) -> (result: bool)
        ensures
            result == row_before(self, other),
    {
        if self.source.precedes(other.source) {
            true
        } else if other.source.precedes(self.source) {
            false
        } else {
            self.local_row < other.local_row
        }
    }
}

/// Stable document key.
#[derive(Clone, Copy, Debug, PartialEq, Eq, Hash, Structural)]
pub struct DocId {
    pub value: u128,
}

/// Revision counter of one document.
#[derive(Clone, Copy, Debug, PartialEq, Eq, Hash, Structural)]
pub struct Revision {
    pub value: u64,
}

/// One exact revision of one document.
#[derive(Clone, Copy, Debug, PartialEq, Eq, Hash, Structural)]
pub struct DocumentVersion {
    pub doc_id: DocId,
    pub revision: Revision,
}

impl DocId {
    /// The key with this number.
    pub fn new(value: u128) -> (id: DocId)
        ensures
            id == (DocId { value }),
    {
        DocId { value }
    }
}

impl Revision {
    /// The revision with this number.
    pub fn new(value: u64) -> (revision: Revision)
        ensures
            revision == (Revision { value }),
    {
        Revision { value }
    }
}

impl DocumentVersion {
    /// One revision of one document.
    pub fn new(doc_id: DocId, revision: Revision) -> (version: DocumentVersion)
        ensures
            version == (DocumentVersion { doc_id, revision }),
    {
        DocumentVersion { doc_id, revision }
    }
}

/// Position of one lexical hit: a source ordinal and a row inside it.
#[derive(Clone, Copy, Debug, PartialEq, Eq, Hash, Structural)]
pub struct GlobalDocId {
    pub segment: u32,
    pub row: u32,
}

/// Order of two lexical positions: source ordinal first, then row.
pub open spec fn doc_before(left: GlobalDocId, right: GlobalDocId) -> bool {
    left.segment < right.segment || (left.segment == right.segment && left.row < right.row)
}

impl GlobalDocId {
    /// Whether this position comes before `other`.
    pub fn precedes(self, other: GlobalDocId) -> (result: bool)
        ensures
            result == doc_before(self, other),
    {
        self.segment < other.segment || (self.segment == other.segment && self.row < other.row)
    }
}

/// The embedding and tokenizer interpretation of a store's bytes.
#[derive(Clone, Copy, Debug, PartialEq, Eq, Hash, Structural)]
pub struct EpochIdentity {
    pub embedding: u64,
    pub tokenizer: u64,
}

/// Two interpretations that were required to agree.
#[derive(Clone, Copy, Debug, PartialEq, Eq, Structural)]
pub struct EpochMismatch {
    pub expected: EpochIdentity,
    pub declared: EpochIdentity,
}

/// Order of two rows is total and strict.
pub proof fn lemma_row_order_is_strict_and_total(a: GlobalRowId, b: GlobalRowId, c: GlobalRowId)
    ensures
        !(row_before(a, b) && row_before(b, a)),
        row_before(a, b) || row_before(b, a) || a == b,
        row_before(a, b) && row_before(b, c) ==> row_before(a, c),
{
}

} // verus!
