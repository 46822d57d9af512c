//! Structured lexical queries: aggregation over expansions and ranking.

use crate::ids::doc_before;
use crate::ids::GlobalDocId;
use crate::lexical::ScoredDoc;
use crate::rank::best;
use crate::rank::rank_items;
use crate::rank::ranked;
use crate::rank::Ranked;
use crate::score::Double;
use vstd::prelude::*;

verus! {

/// What one expansion adds to a document: the expansion's place and the score.
#[derive(Clone, Copy, Debug, PartialEq, Eq, Structural)]
pub struct Contribution {
    pub expansion: usize,
    pub score: Double,
}

/// All that the expansions add to one document, in expansion order.
#[derive(Debug)]
pub struct DocAggregate {
    pub doc: GlobalDocId,
    pub contributions: Vec<Contribution>,
}

/// What a document has been given so far.
pub open spec fn given(
    totals: Map<GlobalDocId, Seq<Contribution>>,
    doc: GlobalDocId,
) -> Seq<Contribution> {
    if totals.dom().contains(doc) {
        totals[doc]
    } else {
        Seq::empty()
    }
}

/// `totals` with the first `n` hits of one expansion added.
pub open spec fn with_hits(
    totals: Map<GlobalDocId, Seq<Contribution>>,
    expansion: usize,
    hits: Seq<ScoredDoc>,
    n: nat,
) -> Map<GlobalDocId, Seq<Contribution>>
    decreases n,
{
    if n == 0 {
        totals
    } else {
        let before = with_hits(totals, expansion, hits, (n - 1) as nat);
        let hit = hits[n - 1];
        before.insert(
            hit.doc,
            given(before, hit.doc).push(Contribution { expansion, score: hit.score }),
        )
    }
}

/// What the first `n` expansions give to every document.
pub open spec fn totals_of(hits: Seq<Vec<ScoredDoc>>, n: nat) -> Map<
    GlobalDocId,
    Seq<Contribution>,
>
    decreases n,
{
    if n == 0 {
        Map::empty()
    } else {
        with_hits(
            totals_of(hits, (n - 1) as nat),
            (n - 1) as usize,
            hits[n - 1]@,
            hits[n - 1]@.len(),
        )
    }
}

/// A list of documents, each once and in order.
pub open spec fn docs_ascend(list: Seq<DocAggregate>) -> bool {
    forall|i: int, j: int|
        0 <= i < j < list.len() ==> doc_before((#[trigger] list[i]).doc, (#[trigger] list[j]).doc)
}

/// A list that holds exactly what a map holds.
pub open spec fn lists(list: Seq<DocAggregate>, totals: Map<GlobalDocId, Seq<Contribution>>) -> bool {
    &&& docs_ascend(list)
    &&& forall|i: int|
        0 <= i < list.len() ==> totals.dom().contains((#[trigger] list[i]).doc)
            && totals[list[i].doc] == list[i].contributions@
    &&& forall|doc: GlobalDocId| #[trigger]
        totals.dom().contains(doc) ==> exists|i: int|
            0 <= i < list.len() && (#[trigger] list[i]).doc == doc
}

fn place_of(list: &Vec<DocAggregate>, doc: GlobalDocId) -> (result: (usize, bool))
    requires
        docs_ascend(list@),
    ensures
        result.0 <= list@.len(),
        result.1 ==> result.0 < list@.len() && list@[result.0 as int].doc == doc,
        !result.1 ==> forall|i: int|
            0 <= i < result.0 ==> doc_before((#[trigger] list@[i]).doc, doc),
        !result.1 ==> forall|i: int|
            result.0 <= i < list@.len() ==> doc_before(doc, (#[trigger] list@[i]).doc),
{
    let mut low: usize = 0;
    let mut high: usize = list.len();
    while low < high
        invariant
            low <= high <= list@.len(),
            docs_ascend(list@),
            forall|i: int| 0 <= i < low ==> doc_before((#[trigger] list@[i]).doc, doc),
            forall|i: int| high <= i < list@.len() ==> doc_before(doc, (#[trigger] list@[i]).doc),
        decreases high - low,
    {
        let middle: usize = low + (high - low) / 2;
        let here = list[middle].doc;
        if here.precedes(doc) {
            assert forall|i: int| 0 <= i <= middle implies doc_before(
                (#[trigger] list@[i]).doc,
                doc,
            ) by {
                if i < middle {
                    assert(doc_before(list@[i].doc, list@[middle as int].doc));
                }
            }
            low = middle + 1;
        } else if doc.precedes(here) {
            assert forall|i: int| middle <= i < list@.len() implies doc_before(
                doc,
                (#[trigger] list@[i]).doc,
            ) by {
                if i > middle {
                    assert(doc_before(list@[middle as int].doc, list@[i].doc));
                }
            }
            high = middle;
        } else {
            return (middle, true);
        }
    }
    (low, false)
}

fn add_contribution(
    list: &mut Vec<DocAggregate>,
    doc: GlobalDocId,
    contribution: Contribution,
    Ghost(totals): Ghost<Map<GlobalDocId, Seq<Contribution>>>,
)
    requires
        lists(old(list)@, totals),
    ensures
        lists(final(list)@, totals.insert(doc, given(totals, doc).push(contribution))),
{
    let (at, found): (usize, bool) = place_of(list, doc);
    let ghost before = list@;
    let ghost after = totals.insert(doc, given(totals, doc).push(contribution));
    if found {
        let mut entry = DocAggregate { doc, contributions: Vec::new() };
        std::mem::swap(&mut entry, &mut list[at]);
        entry.contributions.push(contribution);
        let ghost new_entry = entry;
        std::mem::swap(&mut entry, &mut list[at]);
        assert(list@ == before.update(at as int, new_entry));
        assert(totals.dom().contains(before[at as int].doc));
        assert forall|i: int, j: int| 0 <= i < j < list@.len() implies doc_before(
            (#[trigger] list@[i]).doc,
            (#[trigger] list@[j]).doc,
        ) by {
            assert(doc_before(before[i].doc, before[j].doc));
        }
        assert forall|i: int| 0 <= i < list@.len() implies after.dom().contains(
            (#[trigger] list@[i]).doc,
        ) && after[list@[i].doc] == list@[i].contributions@ by {
            assert(totals.dom().contains(before[i].doc));
            if i != at {
                assert(before[i].doc != doc) by {
                    if i < at {
                        assert(doc_before(before[i].doc, before[at as int].doc));
                    } else {
                        assert(doc_before(before[at as int].doc, before[i].doc));
                    }
                }
            }
        }
        assert forall|d: GlobalDocId| #[trigger] after.dom().contains(d) implies exists|i: int|
            0 <= i < list@.len() && (#[trigger] list@[i]).doc == d by {
            if d == doc {
                assert(list@[at as int].doc == d);
            } else {
                assert(totals.dom().contains(d));
                let i = choose|i: int| 0 <= i < before.len() && (#[trigger] before[i]).doc == d;
                assert(list@[i].doc == d);
            }
        }
    } else {
        let mut contributions: Vec<Contribution> = Vec::new();
        contributions.push(contribution);
        let entry = DocAggregate { doc, contributions };
        list.insert(at, entry);
        assert(list@ == before.insert(at as int, entry));
        assert(!totals.dom().contains(doc)) by {
            if totals.dom().contains(doc) {
                let i = choose|i: int| 0 <= i < before.len() && (#[trigger] before[i]).doc == doc;
                if i < at {
                    assert(doc_before(before[i].doc, doc));
                } else {
                    assert(doc_before(doc, before[i].doc));
                }
            }
        }
        assert forall|i: int, j: int| 0 <= i < j < list@.len() implies doc_before(
            (#[trigger] list@[i]).doc,
            (#[trigger] list@[j]).doc,
        ) by {
            if i < at {
                assert(list@[i] == before[i]);
            } else if i > at {
                assert(list@[i] == before[i - 1]);
            }
            if j < at {
                assert(list@[j] == before[j]);
            } else if j > at {
                assert(list@[j] == before[j - 1]);
            }
        }
        assert(Seq::<Contribution>::empty().push(contribution) == entry.contributions@);
        assert forall|i: int| 0 <= i < list@.len() implies after.dom().contains(
            (#[trigger] list@[i]).doc,
        ) && after[list@[i].doc] == list@[i].contributions@ by {
            if i < at {
                assert(list@[i] == before[i]);
                assert(totals.dom().contains(before[i].doc));
            } else if i > at {
                assert(list@[i] == before[i - 1]);
                assert(totals.dom().contains(before[i - 1].doc));
            }
        }
        assert forall|d: GlobalDocId| #[trigger] after.dom().contains(d) implies exists|i: int|
            0 <= i < list@.len() && (#[trigger] list@[i]).doc == d by {
            if d == doc {
                assert(list@[at as int].doc == d);
            } else {
                assert(totals.dom().contains(d));
                let i = choose|i: int| 0 <= i < before.len() && (#[trigger] before[i]).doc == d;
                if i < at {
                    assert(list@[i].doc == d);
                } else {
                    assert(list@[i + 1].doc == d);
                }
            }
        }
    }
}

/// Gathers, document by document and in document order, what each expansion's
/// hits contribute.
pub fn aggregate_hits(hits: &Vec<Vec<ScoredDoc>>) -> (list: Vec<DocAggregate>)
    ensures
        lists(list@, totals_of(hits@, hits@.len())),
{
    let mut list: Vec<DocAggregate> = Vec::new();
    let mut expansion: usize = 0;
    while expansion < hits.len()
        invariant
            expansion <= hits@.len(),
            lists(list@, totals_of(hits@, expansion as nat)),
        decreases hits.len() - expansion,
    {
        let ghost earlier = totals_of(hits@, expansion as nat);
        let mut at: usize = 0;
        while at < hits[expansion].len()
            invariant
                expansion < hits@.len(),
                at <= hits@[expansion as int]@.len(),
                lists(list@, with_hits(earlier, expansion, hits@[expansion as int]@, at as nat)),
            decreases hits@[expansion as int]@.len() - at,
        {
            let hit = hits[expansion][at];
            add_contribution(
                &mut list,
                hit.doc,
                Contribution { expansion, score: hit.score },
                Ghost(with_hits(earlier, expansion, hits@[expansion as int]@, at as nat)),
            );
            at = at + 1;
        }
        expansion = expansion + 1;
    }
    list
}

/// A document with its final score and its place in the aggregation.
#[derive(Clone, Copy, Debug, PartialEq, Eq, Structural)]
pub struct RankedDoc {
    pub doc: GlobalDocId,
    pub score: Double,
    pub place: usize,
}

/// Numeric position of a score; both zeros share one place.
pub open spec fn numeric(score: Double) -> int {
    if score.bits < 0x8000_0000_0000_0000 {
        score.bits as int
    } else {
        0x8000_0000_0000_0000 - score.bits
    }
}

/// Whether one score is numerically below another.
pub fn numeric_below(left: Double, right: Double) -> (result: bool)
    ensures
        result == (numeric(left) < numeric(right)),
{
    if left.bits < 0x8000_0000_0000_0000 {
        if right.bits < 0x8000_0000_0000_0000 {
            left.bits < right.bits
        } else {
            false
        }
    } else if right.bits < 0x8000_0000_0000_0000 {
        left.bits > 0x8000_0000_0000_0000 || right.bits > 0
    } else {
        left.bits > right.bits
    }
}

/// A score that is a number: one that is not has no place.
pub open spec fn is_number(score: Double) -> bool {
    score.bits % 0x8000_0000_0000_0000 <= 0x7ff0_0000_0000_0000
}

impl Ranked for RankedDoc {
    /// Best score first, then by document.
    open spec fn rank(self) -> (int, int, int) {
        (-numeric(self.score), self.doc.segment as int, self.doc.row as int)
    }

    fn ranks_before(&self, other: &Self) -> (result: bool) {
        if numeric_below(other.score, self.score) {
            true
        } else if numeric_below(self.score, other.score) {
            false
        } else {
            self.doc.precedes(other.doc)
        }
    }

    fn ties_with(&self, other: &Self) -> (result: bool) {
        !numeric_below(self.score, other.score) && !numeric_below(other.score, self.score)
    }
}

/// The documents that a phrase lets through, in document order.
pub open spec fn admitted(
    docs: Seq<GlobalDocId>,
    scores: Seq<Double>,
    phrase: Option<Seq<bool>>,
) -> Seq<RankedDoc>
    decreases docs.len(),
{
    if docs.len() == 0 {
        Seq::empty()
    } else {
        let last = docs.len() - 1;
        let earlier = admitted(docs.drop_last(), scores, phrase);
        let passes = match phrase {
            Some(matches) => last < matches.len() && matches[last],
            None => true,
        };
        if passes {
            earlier.push(
                RankedDoc { doc: docs[last], score: scores[last], place: last as usize },
            )
        } else {
            earlier
        }
    }
}

/// Documents of a list.
pub open spec fn docs_of(list: Seq<DocAggregate>) -> Seq<GlobalDocId> {
    list.map_values(|entry: DocAggregate| entry.doc)
}

/// Ranks aggregated documents by their final scores and keeps the best `k`.
/// `phrase` says of each document whether its text holds the phrase, where the
/// query asks for one.
pub fn rank_structured(
    list: &Vec<DocAggregate>,
    scores: &Vec<Double>,
    phrase: Option<&Vec<bool>>,
    k: usize,
) -> (result: Vec<RankedDoc>)
    requires
        scores@.len() == list@.len(),
        forall|i: int| 0 <= i < scores@.len() ==> is_number(#[trigger] scores@[i]),
    ensures
        result@ == best(
            ranked(
                admitted(
                    docs_of(list@),
                    scores@,
                    match phrase {
                        Some(matches) => Some(matches@),
                        None => None,
                    },
                ),
            ),
            k as nat,
        ),
{
    let ghost matches_view = match phrase {
        Some(matches) => Some(matches@),
        None => None,
    };
    let ghost docs = docs_of(list@);
    let mut result: Vec<RankedDoc> = Vec::new();
    let mut at: usize = 0;
    while at < list.len()
        invariant
            at <= list@.len(),
            scores@.len() == list@.len(),
            docs == docs_of(list@),
            matches_view == match phrase {
                Some(matches) => Some(matches@),
                None => None,
            },
            result@ == admitted(docs.take(at as int), scores@, matches_view),
        decreases list.len() - at,
    {
        let ghost prefix = docs.take(at + 1);
        assert(prefix.drop_last() == docs.take(at as int));
        assert(prefix[at as int] == list@[at as int].doc);
        let passes = match phrase {
            Some(matches) => at < matches.len() && matches[at],
            None => true,
        };
        if passes {
            result.push(RankedDoc { doc: list[at].doc, score: scores[at], place: at });
        }
        at = at + 1;
    }
    assert(docs.take(at as int) == docs);
    rank_items(&mut result);
    let ghost all = result@;
    result.truncate(k);
    assert(result@ == best(all, k as nat));
    result
}

/// Scores and documents of ranked hits.
pub open spec fn scored_docs(hits: Seq<RankedDoc>) -> Seq<ScoredDoc> {
    hits.map_values(|hit: RankedDoc| ScoredDoc { doc: hit.doc, score: hit.score })
}

} // verus!
