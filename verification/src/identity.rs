//! Physical identities of rows across both legs.

use crate::candidates::LexicalHit;
use crate::candidates::StructuredLexicalSource;
use crate::fusion::FusionError;
use crate::fusion::FusionLeg;
use crate::fusion::LegFailureKind;
use crate::ids::DocumentVersion;
use crate::ids::GlobalRowId;
use crate::ids::RowSource;
use crate::ids::SegmentId;
use crate::rank::before;
use crate::rank::is_ranked;
use crate::rank::Ranked;
use vstd::prelude::*;

verus! {

/// A row and the document revision that it was pinned with.
#[derive(Clone, Copy, Debug, PartialEq, Eq, Structural)]
pub struct PhysicalIdentity {
    pub row: GlobalRowId,
    pub document: Option<DocumentVersion>,
}

/// Place of a physical row among all rows.
pub open spec fn row_place(row: GlobalRowId) -> int {
    row.source.rank() * 0x1_0000_0000 + row.local_row
}

/// Place of a document among all documents; no document comes first.
pub open spec fn document_place(document: Option<DocumentVersion>) -> int {
    match document {
        None => -1,
        Some(version) => version.doc_id.value as int,
    }
}

/// Place of a revision; no document counts as the lowest.
pub open spec fn revision_place(document: Option<DocumentVersion>) -> int {
    match document {
        None => 0,
        Some(version) => version.revision.value as int,
    }
}

/// How one number stands to another.
#[derive(Clone, Copy, Debug, PartialEq, Eq, Structural)]
pub enum Relation {
    Before,
    Same,
    After,
}

/// The relation of two places.
pub open spec fn relation(left: int, right: int) -> Relation {
    if left < right {
        Relation::Before
    } else if left == right {
        Relation::Same
    } else {
        Relation::After
    }
}

/// How two rows stand to each other.
pub fn relate_rows(left: GlobalRowId, right: GlobalRowId) -> (result: Relation)
    ensures
        result == relation(row_place(left), row_place(right)),
{
    if left.precedes(right) {
        Relation::Before
    } else if right.precedes(left) {
        Relation::After
    } else {
        Relation::Same
    }
}

/// How two document keys stand to each other.
pub fn relate_documents(left: Option<DocumentVersion>, right: Option<DocumentVersion>) -> (result:
    Relation)
    ensures
        result == relation(document_place(left), document_place(right)),
{
    match (left, right) {
        (None, None) => Relation::Same,
        (None, Some(_)) => Relation::Before,
        (Some(_), None) => Relation::After,
        (Some(a), Some(b)) => if a.doc_id.value < b.doc_id.value {
            Relation::Before
        } else if b.doc_id.value < a.doc_id.value {
            Relation::After
        } else {
            Relation::Same
        },
    }
}

/// How two revisions stand to each other.
pub fn relate_revisions(left: Option<DocumentVersion>, right: Option<DocumentVersion>) -> (result:
    Relation)
    ensures
        result == relation(revision_place(left), revision_place(right)),
{
    let a: u64 = match left {
        None => 0,
        Some(version) => version.revision.value,
    };
    let b: u64 = match right {
        None => 0,
        Some(version) => version.revision.value,
    };
    if a < b {
        Relation::Before
    } else if b < a {
        Relation::After
    } else {
        Relation::Same
    }
}

impl Ranked for PhysicalIdentity {
    /// By row, then by document, then by revision.
    open spec fn rank(self) -> (int, int, int) {
        (row_place(self.row), document_place(self.document), revision_place(self.document))
    }

    fn ranks_before(&self, other: &Self) -> (result: bool) {
        match relate_rows(self.row, other.row) {
            Relation::Before => true,
            Relation::After => false,
            Relation::Same => match relate_documents(self.document, other.document) {
                Relation::Before => true,
                Relation::After => false,
                Relation::Same => relate_revisions(self.document, other.document)
                    == Relation::Before,
            },
        }
    }

    fn ties_with(&self, other: &Self) -> (result: bool) {
        relate_rows(self.row, other.row) == Relation::Same
    }
}

/// Identities of equal rank are equal.
pub proof fn lemma_rank_identifies(a: PhysicalIdentity, b: PhysicalIdentity)
    ensures
        a.rank() == b.rank() <==> a == b,
{
}

/// `s` without an item that equals the one before it.
pub open spec fn without_repeats(s: Seq<PhysicalIdentity>) -> Seq<PhysicalIdentity>
    decreases s.len(),
{
    if s.len() < 2 {
        s
    } else if s[s.len() - 1] == s[s.len() - 2] {
        without_repeats(s.drop_last())
    } else {
        without_repeats(s.drop_last()).push(s.last())
    }
}

proof fn lemma_without_repeats_tail(s: Seq<PhysicalIdentity>)
    requires
        s.len() > 0,
    ensures
        without_repeats(s).len() > 0,
        without_repeats(s).last() == s.last(),
        without_repeats(s).len() <= s.len(),
    decreases s.len(),
{
    if s.len() >= 2 {
        lemma_without_repeats_tail(s.drop_last());
    }
}

/// Dropping repeats of a ranked sequence keeps exactly its members, each once
/// and in order.
pub proof fn lemma_without_repeats_members(s: Seq<PhysicalIdentity>)
    requires
        is_ranked(s),
    ensures
        forall|id: PhysicalIdentity| #[trigger] without_repeats(s).contains(id) <==> s.contains(id),
        forall|i: int, j: int|
            0 <= i < j < without_repeats(s).len() ==> before(
                (#[trigger] without_repeats(s)[i]).rank(),
                (#[trigger] without_repeats(s)[j]).rank(),
            ),
    decreases s.len(),
{
    if s.len() >= 2 {
        let shorter = s.drop_last();
        assert forall|i: int, j: int| 0 <= i < j < shorter.len() implies !before(
            (#[trigger] shorter[j]).rank(),
            (#[trigger] shorter[i]).rank(),
        ) by {
            assert(shorter[i] == s[i] && shorter[j] == s[j]);
        }
        lemma_without_repeats_members(shorter);
        lemma_without_repeats_tail(shorter);
        let kept = without_repeats(shorter);
        let out = without_repeats(s);
        assert forall|id: PhysicalIdentity| #[trigger] out.contains(id) <==> s.contains(id) by {
            assert(s == shorter.push(s.last()));
            if out.contains(id) {
                let i = choose|i: int| 0 <= i < out.len() && out[i] == id;
                if i < kept.len() {
                    assert(kept[i] == id);
                    assert(kept.contains(id));
                    assert(shorter.contains(id));
                    let j = choose|j: int| 0 <= j < shorter.len() && shorter[j] == id;
                    assert(s[j] == id);
                } else {
                    assert(s[s.len() - 1] == id);
                }
            }
            if s.contains(id) {
                let j = choose|j: int| 0 <= j < s.len() && s[j] == id;
                if j < shorter.len() {
                    assert(shorter[j] == id);
                    assert(kept.contains(id));
                    let i = choose|i: int| 0 <= i < kept.len() && kept[i] == id;
                    assert(out[i] == id);
                } else if s[s.len() - 1] == s[s.len() - 2] {
                    assert(shorter[s.len() - 2] == id);
                    assert(kept.contains(id));
                } else {
                    assert(out[out.len() - 1] == id);
                }
            }
        }
        if s[s.len() - 1] != s[s.len() - 2] {
            assert(kept.last() == s[s.len() - 2]);
            lemma_rank_identifies(s[s.len() - 1], s[s.len() - 2]);
            assert(!before(s[s.len() - 1].rank(), s[s.len() - 2].rank()));
            assert forall|i: int, j: int| 0 <= i < j < out.len() implies before(
                (#[trigger] out[i]).rank(),
                (#[trigger] out[j]).rank(),
            ) by {
                if j == kept.len() {
                    assert(out[i] == kept[i]);
                    if i < kept.len() - 1 {
                        assert(before(kept[i].rank(), kept[kept.len() - 1].rank()));
                    }
                } else {
                    assert(out[i] == kept[i] && out[j] == kept[j]);
                }
            }
        }
    }
}

/// Drops items that equal the one before them.
pub fn drop_repeats(items: &mut Vec<PhysicalIdentity>)
    ensures
        final(items)@ == without_repeats(old(items)@),
{
    let ghost before = items@;
    let mut kept: usize = 0;
    let mut at: usize = 0;
    while at < items.len()
        invariant
            kept <= at <= items@.len(),
            items@.len() == before.len(),
            items@.take(kept as int) == without_repeats(before.take(at as int)),
            items@.skip(at as int) == before.skip(at as int),
            at > 0 ==> kept > 0,
        decreases items.len() - at,
    {
        let ghost prefix = before.take(at + 1);
        assert(prefix.drop_last() == before.take(at as int));
        assert(items@.skip(at as int)[0] == before.skip(at as int)[0]);
        let item = items[at];
        assert(prefix.last() == item);
        if at > 0 {
            proof {
                lemma_without_repeats_tail(before.take(at as int));
            }
            assert(items@[kept - 1] == items@.take(kept as int).last());
            assert(items@[kept - 1] == before[at - 1]);
        }
        let ghost earlier = items@;
        if at == 0 || item != items[kept - 1] {
            items.set(kept, item);
            kept = kept + 1;
            assert(items@.take(kept as int) == earlier.take(kept - 1).push(item));
            if at == 0 {
                assert(items@.take(kept as int) == prefix);
            }
        }
        assert(items@.skip(at + 1) == before.skip(at + 1)) by {
            assert(items@.skip(at + 1) == earlier.skip(at as int).skip(1));
            assert(before.skip(at + 1) == before.skip(at as int).skip(1));
        }
        at = at + 1;
    }
    assert(before.take(at as int) == before);
    items.truncate(kept);
}

/// Finds an item of equal rank in a ranked list.
pub fn find_ranked<T: Ranked>(items: &Vec<T>, end: usize, key: &T) -> (found: Option<usize>)
    requires
        end <= items@.len(),
        is_ranked(items@.take(end as int)),
    ensures
        match found {
            Some(at) => at < end && items@[at as int].rank() == key.rank(),
            None => forall|i: int| 0 <= i < end ==> (#[trigger] items@[i]).rank() != key.rank(),
        },
{
    let ghost sorted = items@.take(end as int);
    let mut low: usize = 0;
    let mut high: usize = end;
    while low < high
        invariant
            low <= high <= end <= items@.len(),
            sorted == items@.take(end as int),
            is_ranked(sorted),
            forall|i: int| 0 <= i < low ==> before((#[trigger] sorted[i]).rank(), key.rank()),
            forall|i: int| high <= i < end ==> before(key.rank(), (#[trigger] sorted[i]).rank()),
        decreases high - low,
    {
        let middle: usize = low + (high - low) / 2;
        assert(sorted[middle as int] == items@[middle as int]);
        if items[middle].ranks_before(key) {
            assert forall|i: int| 0 <= i <= middle implies before(
                (#[trigger] sorted[i]).rank(),
                key.rank(),
            ) by {
                if i < middle {
                    assert(!before(sorted[middle as int].rank(), sorted[i].rank()));
                }
            }
            low = middle + 1;
        } else if key.ranks_before(&items[middle]) {
            assert forall|i: int| middle <= i < end implies before(
                key.rank(),
                (#[trigger] sorted[i]).rank(),
            ) by {
                if i > middle {
                    assert(!before(sorted[i].rank(), sorted[middle as int].rank()));
                }
            }
            high = middle;
        } else {
            return Some(middle);
        }
    }
    assert forall|i: int| 0 <= i < end implies (#[trigger] items@[i]).rank() != key.rank() by {
        assert(sorted[i] == items@[i]);
    }
    None
}

/// A lexical failure of an internal rule.
pub open spec fn is_lexical_invariant(error: FusionError, detail: Seq<char>) -> bool {
    error matches FusionError::Leg { leg, kind, detail: text } && leg == FusionLeg::Lexical && kind
        == LegFailureKind::Invariant && text@ == detail
}

/// A lexical failure of an internal rule.
pub(crate) fn lexical_invariant(detail: &str) -> (error: FusionError)
    ensures
        is_lexical_invariant(error, detail@),
{
    FusionError::Leg {
        leg: FusionLeg::Lexical,
        kind: LegFailureKind::Invariant,
        detail: detail.to_owned(),
    }
}

/// A vector failure of an internal rule.
pub open spec fn is_vector_invariant(error: FusionError, detail: Seq<char>) -> bool {
    error matches FusionError::Leg { leg, kind, detail: text } && leg == FusionLeg::Vector && kind
        == LegFailureKind::Invariant && text@ == detail
}

/// A vector failure of an internal rule.
pub(crate) fn vector_invariant(detail: &str) -> (error: FusionError)
    ensures
        is_vector_invariant(error, detail@),
{
    FusionError::Leg {
        leg: FusionLeg::Vector,
        kind: LegFailureKind::Invariant,
        detail: detail.to_owned(),
    }
}

/// The source that a lexical ordinal names, where the snapshot holds it.
pub open spec fn source_of(
    segments: Seq<SegmentId>,
    sources: Seq<StructuredLexicalSource>,
    ordinal: u32,
) -> Option<RowSource> {
    if ordinal >= sources.len() {
        None
    } else {
        match sources[ordinal as int] {
            StructuredLexicalSource::Active => Some(RowSource::Active),
            StructuredLexicalSource::Sealed(slot) => if slot < segments.len() {
                Some(RowSource::Sealed(segments[slot as int]))
            } else {
                None
            },
        }
    }
}

/// The physical identity of a hit whose source is known.
pub open spec fn identity_of(
    segments: Seq<SegmentId>,
    sources: Seq<StructuredLexicalSource>,
    hit: LexicalHit,
) -> PhysicalIdentity {
    PhysicalIdentity {
        row: GlobalRowId {
            source: source_of(segments, sources, hit.doc.segment)->0,
            local_row: hit.doc.row,
        },
        document: hit.document,
    }
}

/// What is said of a hit whose source is unknown.
pub open spec fn source_complaint(
    sources: Seq<StructuredLexicalSource>,
    ordinal: u32,
) -> Seq<char> {
    if ordinal >= sources.len() {
        "hybrid lexical source ordinal is absent"@
    } else {
        "hybrid sealed source is absent"@
    }
}

/// Resolves the physical identity of a hit.
pub fn lexical_identity(
    segments: &Vec<SegmentId>,
    sources: &Vec<StructuredLexicalSource>,
    hit: &LexicalHit,
) -> (result: Result<PhysicalIdentity, FusionError>)
    ensures
        match result {
            Ok(identity) => source_of(segments@, sources@, hit.doc.segment) is Some && identity
                == identity_of(segments@, sources@, *hit),
            Err(error) => source_of(segments@, sources@, hit.doc.segment) is None
                && is_lexical_invariant(error, source_complaint(sources@, hit.doc.segment)),
        },
{
    let ordinal: usize = hit.doc.segment as usize;
    if ordinal >= sources.len() {
        return Err(lexical_invariant("hybrid lexical source ordinal is absent"));
    }
    let source = match sources[ordinal] {
        StructuredLexicalSource::Active => RowSource::Active,
        StructuredLexicalSource::Sealed(slot) => {
            if slot >= segments.len() {
                return Err(lexical_invariant("hybrid sealed source is absent"));
            }
            RowSource::Sealed(segments[slot])
        },
    };
    Ok(PhysicalIdentity { row: GlobalRowId::new(source, hit.doc.row), document: hit.document })
}

} // verus!
