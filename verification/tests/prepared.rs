use zeppelin_embed::accounting::{AccountedCounter, Accounting, AllocationComponent};
use zeppelin_embed::error::{
    Geometry, GraphSearchError, QueryError, ScanError, SegmentError, StoreError, StoreErrorKind,
};
use zeppelin_embed::expansion::{
    expand, CachedVocabulary, ExpansionError, PhoneticBuild, PhoneticStep,
};
use zeppelin_embed::fusion::{FusionError, FusionLeg, LegFailureKind};
use zeppelin_embed::ids::{
    DocId, DocumentVersion, EpochIdentity, Revision, RowSource, SegmentId,
};
use zeppelin_embed::lexical::{LexicalExpansion, LexicalMatchKind};
use zeppelin_embed::prepared::{
    GraphExactScore, LayoutStep, PreparedLayout, PreparedVectorQuery,
};
use zeppelin_embed::prepared_lexical::{
    phrase_error, reserve_weighted_scratch, AssemblyReceipt, PhraseEligibility, PhraseReadError,
    PinnedLexicalQuery, PreparedLexicalQuery, QueryTables,
};

const QUERY: u64 = 41;

fn version(id: u128) -> Option<DocumentVersion> {
    Some(DocumentVersion::new(DocId::new(id), Revision::new(1)))
}

/// Prepares a layout whose codes take one byte per padded dimension, and says
/// whether it had to be prepared.
fn layout(
    context: &mut PreparedVectorQuery,
    accounting: &mut Accounting,
    padding: usize,
    seed: u64,
) -> Result<bool, QueryError> {
    match context.plan_layout(accounting, QUERY, padding, seed)? {
        LayoutStep::Ready(_) => Ok(false),
        LayoutStep::Prepare { peak } => {
            context.finish_layout(accounting, padding, seed, peak, Ok(padding as u64))?;
            Ok(true)
        }
    }
}

#[test]
fn astra_09_prepared_layouts_keep_padding_seed_and_query_space_distinct() {
    for dimensions in [128, 129] {
        let mut accounting = Accounting::new(u64::MAX, u64::MAX);
        let space = EpochIdentity {
            embedding: 1,
            tokenizer: 3,
        };
        let mut context = PreparedVectorQuery::new(QUERY, dimensions, false, Some(space));
        let mut preparations = Vec::new();
        for (padding, seed) in [(256, 0), (256, 71), (512, 71), (256, 0), (512, 71)] {
            if layout(&mut context, &mut accounting, padding, seed).expect("compatible layout") {
                preparations.push((dimensions, padding, seed));
            }
        }
        assert_eq!(
            preparations,
            vec![
                (dimensions, 256, 0),
                (dimensions, 256, 71),
                (dimensions, 512, 71),
            ]
        );
        let retained = context.layouts.resident_bytes()
            + context
                .layouts
                .as_slice()
                .iter()
                .map(|layout| layout.codes)
                .sum::<u64>();
        assert_eq!(accounting.audit().temporary_bytes, retained);
        assert!(context.validate_binding(QUERY + 1, Some(space)).is_err());
        let other_space = EpochIdentity {
            embedding: 2,
            ..space
        };
        assert!(context.validate_binding(QUERY, Some(other_space)).is_err());
        context.release(&mut accounting);
        assert_eq!(accounting.audit().temporary_bytes, 0);
    }
}

#[test]
fn astra_09_preparation_budget_refusal_releases_partial_capacity() {
    let header_bytes = std::mem::size_of::<PreparedLayout>() as u64;
    // Entry capacity fits; the simultaneous 128-byte coordinate and
    // interleaved buffers exceed the remaining allowance by one byte.
    let mut accounting = Accounting::new(u64::MAX, header_bytes + 255);
    let mut context = PreparedVectorQuery::new(QUERY, 128, false, None);
    let mut preparations = 0;
    let outcome = layout(&mut context, &mut accounting, 128, 0);
    if outcome == Ok(true) {
        preparations += 1;
    }
    assert!(matches!(
        outcome,
        Err(QueryError::Store(StoreError::BudgetExceeded {
            component: "temporary",
            ..
        }))
    ));
    assert!(
        context.layouts.is_empty(),
        "no partial prepared entry is published"
    );
    assert_eq!(
        preparations, 0,
        "reservation must fail before preparation allocates"
    );
    assert_eq!(accounting.audit().temporary_bytes, header_bytes);
    context.release(&mut accounting);
    assert_eq!(accounting.audit().temporary_bytes, 0);
    let mut accounting = Accounting::new(u64::MAX, u64::MAX);
    let mut retry = PreparedVectorQuery::new(QUERY, 128, false, None);
    assert!(layout(&mut retry, &mut accounting, 128, 0).is_ok());
    retry.release(&mut accounting);
    assert_eq!(accounting.audit().temporary_bytes, 0);
}

#[test]
fn astra_09_graph_score_growth_accounts_overlap_and_releases_on_failure() {
    let source = RowSource::Sealed(SegmentId { value: 5 });
    let rows = (0..17_usize).collect::<Vec<_>>();
    let documents = (0..17).map(|row| version(row + 1)).collect::<Vec<_>>();
    let exact = (0..17)
        .map(|row| (-((row * row) as f64)).to_bits())
        .collect::<Vec<_>>();
    let entry_bytes = std::mem::size_of::<GraphExactScore>() as u64;
    // Sixteen old entries plus a 32-entry replacement need 48 slots,
    // even though the final allocation would fit in this 47-slot budget.
    let mut accounting = Accounting::new(u64::MAX, 47 * entry_bytes);
    let mut context = PreparedVectorQuery::new(QUERY, 1, true, None);
    let failure = context.rescore_graph(
        &mut accounting,
        QUERY,
        source,
        &rows,
        &documents,
        None,
        &exact,
    );
    assert!(matches!(
        failure,
        Err(QueryError::Store(StoreError::BudgetExceeded {
            component: "temporary",
            ..
        }))
    ));
    assert_eq!(context.graph_scores.len(), 16);
    assert_eq!(accounting.audit().temporary_bytes, 16 * entry_bytes);
    context.release(&mut accounting);
    assert_eq!(accounting.audit().temporary_bytes, 0);

    let mut accounting = Accounting::new(u64::MAX, 48 * entry_bytes);
    let mut context = PreparedVectorQuery::new(QUERY, 1, true, None);
    let fresh = context
        .rescore_graph(&mut accounting, QUERY, source, &rows, &documents, None, &exact)
        .expect("exact growth allowance");
    let reused = context
        .rescore_graph(&mut accounting, QUERY, source, &rows, &documents, None, &vec![0; 17])
        .expect("cached control");
    assert_eq!(fresh.candidates_rescored, 17);
    assert_eq!(reused.candidates_rescored, 0);
    assert_eq!(fresh.scores, reused.scores);
    assert_eq!(fresh.scores, exact);
    assert_eq!(context.graph_scores.len(), 17);
    assert_eq!(accounting.audit().temporary_bytes, 32 * entry_bytes);
    context.release(&mut accounting);
    assert_eq!(accounting.audit().temporary_bytes, 0);
}

#[test]
fn a_foreign_vector_is_refused_in_words() {
    let mut accounting = Accounting::new(u64::MAX, u64::MAX);
    let mut context = PreparedVectorQuery::new(QUERY, 1, true, None);
    let error = context
        .rescore_graph(
            &mut accounting,
            QUERY + 1,
            RowSource::Active,
            &Vec::new(),
            &Vec::new(),
            None,
            &Vec::new(),
        )
        .expect_err("foreign");
    assert_eq!(
        error,
        QueryError::Graph(GraphSearchError::Geometry(Geometry::ForeignPreparedVector))
    );
    assert_eq!(
        Geometry::ForeignPreparedVector.message(),
        "prepared vector context belongs to another query or epoch"
    );
}

#[test]
fn a_failed_layout_gives_its_peak_back() {
    let mut accounting = Accounting::new(u64::MAX, u64::MAX);
    let mut context = PreparedVectorQuery::new(QUERY, 100, true, None);
    // One code buffer for an all-zero vector and four bytes of padding each.
    let step = context
        .plan_layout(&mut accounting, QUERY, 128, 7)
        .expect("plan");
    assert_eq!(step, LayoutStep::Prepare { peak: 128 * 5 });
    let failed = context.finish_layout(
        &mut accounting,
        128,
        7,
        128 * 5,
        Err(GraphSearchError::Cancelled { partial: false }),
    );
    assert_eq!(failed, Err(QueryError::Cancelled { partial: false }));
    assert!(context.layouts.is_empty());
    assert_eq!(
        accounting.audit().temporary_bytes,
        context.layouts.resident_bytes()
    );
    assert_eq!(
        context.plan_layout(&mut accounting, QUERY, usize::MAX, 7),
        Err(QueryError::Scan(ScanError::ArithmeticOverflow))
    );
}

#[test]
fn a_row_that_cannot_be_addressed_has_no_score() {
    let context = PreparedVectorQuery::new(QUERY, 1, true, None);
    assert_eq!(
        context.graph_score(RowSource::Active, u32::MAX as usize + 1, None, None),
        Err(QueryError::Scan(ScanError::ArithmeticOverflow))
    );
    assert_eq!(context.graph_score(RowSource::Active, 3, None, None), Ok(None));
    let damaged = SegmentError::Other("damaged".to_owned());
    assert_eq!(
        context.graph_score(RowSource::Active, 3, None, Some(damaged.clone())),
        Err(QueryError::Store(StoreError::Segment(damaged)))
    );
}

fn tables(bytes: Option<u64>) -> QueryTables {
    QueryTables {
        bytes,
        built: Ok(()),
    }
}

fn receipt(assembly: u64, segments: usize) -> Result<AssemblyReceipt, FusionError> {
    Ok(AssemblyReceipt {
        assembly,
        segments,
        cache_hit: false,
    })
}

fn term_query() -> PinnedLexicalQuery {
    PinnedLexicalQuery::Term {
        identity: 9,
        terms: vec!["alpha".to_owned(), "beta".to_owned()],
    }
}

#[test]
fn astra_09_lexical_preparation_refuses_foreign_bindings_and_releases_failed_budget() {
    let bytes = 96_u64;
    for limit in [bytes - 1, bytes] {
        let mut accounting = Accounting::new(u64::MAX, limit);
        let mut context = PreparedLexicalQuery::new(term_query());
        let result =
            context.prepare_term(&mut accounting, receipt(4, 1), Ok(()), "", tables(Some(bytes)));
        if limit < bytes {
            assert!(matches!(
                result,
                Err(FusionError::Leg {
                    kind: LegFailureKind::Store(StoreErrorKind::BudgetExceeded),
                    ..
                })
            ));
            assert!(
                context.term.is_none(),
                "no partial query preparation is published"
            );
            assert_eq!(accounting.audit().temporary_bytes, 0);
        } else {
            assert_eq!(result, Ok(false));
            assert_eq!(accounting.audit().temporary_bytes, bytes);
            assert!(context.term_scoring(4, 9).is_ok());
            for (assembly, query) in [(4, 10), (5, 9)] {
                assert!(matches!(
                    context.term_scoring(assembly, query),
                    Err(FusionError::Leg {
                        kind: LegFailureKind::Invariant,
                        ..
                    })
                ));
            }
            let reused = context
                .prepare_term(&mut accounting, receipt(4, 1), Ok(()), "", tables(Some(bytes)))
                .expect("same admission reuses preparation");
            assert!(reused);
            assert_eq!(accounting.audit().temporary_bytes, bytes);
        }
        context.reset_for_test(&mut accounting);
        assert_eq!(accounting.audit().temporary_bytes, 0);
    }
    let mut accounting = Accounting::new(u64::MAX, 0);
    let mut context = PreparedLexicalQuery::new(PinnedLexicalQuery::Structured { identity: 2 });
    let expanded = vec![LexicalExpansion {
        term: "alpha".to_owned(),
        boost_thousandths: 1_000,
        kind: LexicalMatchKind::Prefix,
    }];
    assert!(matches!(
        context.prepare_structured(
            &mut accounting,
            receipt(4, 1),
            Ok(()),
            Ok(expanded),
            Ok(()),
            "",
            tables(Some(8)),
        ),
        Err(FusionError::Leg {
            kind: LegFailureKind::Store(StoreErrorKind::BudgetExceeded),
            ..
        })
    ));
    assert!(context.structured.is_none());
    assert_eq!(accounting.audit().temporary_bytes, 0);
}

fn detail(error: FusionError) -> String {
    match error {
        FusionError::Leg {
            leg: FusionLeg::Lexical,
            kind: LegFailureKind::Invariant,
            detail,
        } => detail,
        other => panic!("unexpected {other:?}"),
    }
}

#[test]
fn lexical_preparation_names_what_was_misused() {
    let mut accounting = Accounting::new(u64::MAX, u64::MAX);
    let mut structured =
        PreparedLexicalQuery::new(PinnedLexicalQuery::Structured { identity: 2 });
    assert_eq!(
        detail(
            structured
                .prepare_term(&mut accounting, receipt(1, 1), Ok(()), "", tables(Some(1)))
                .expect_err("kind")
        ),
        "term preparation used for another query kind"
    );
    assert_eq!(
        detail(structured.take_expansions().expect_err("unprepared")),
        "structured producer did not prepare expansions"
    );
    assert_eq!(
        detail(structured.structured_scoring(1, 2).expect_err("unprepared")),
        "structured producer did not prepare its query"
    );
    assert_eq!(
        detail(structured.term_scoring(1, 2).expect_err("kind")),
        "term scoring used for another query kind"
    );
    let mut term = PreparedLexicalQuery::new(term_query());
    assert_eq!(
        detail(
            term.prepare_structured(
                &mut accounting,
                receipt(1, 1),
                Ok(()),
                Ok(Vec::new()),
                Ok(()),
                "",
                tables(Some(1)),
            )
            .expect_err("kind")
        ),
        "structured preparation used for another query kind"
    );
    assert_eq!(
        detail(term.structured_scoring(1, 2).expect_err("kind")),
        "structured scoring used for another query kind"
    );
    assert_eq!(
        detail(term.term_scoring(1, 9).expect_err("unprepared")),
        "lexical producer did not prepare its query"
    );
    // An assembly without sources leaves nothing to score with.
    term.prepare_term(&mut accounting, receipt(1, 0), Ok(()), "", tables(Some(1)))
        .expect("empty assembly");
    assert_eq!(accounting.audit().temporary_bytes, 0);
    assert_eq!(
        detail(term.term_scoring(1, 9).expect_err("no statistics")),
        "nonempty lexical candidates have no prepared statistics"
    );
    assert_eq!(
        detail(term.term.expect("state").scoring().expect_err("nothing")),
        "nonempty lexical input has no prepared statistics"
    );
    let plain = term.take_expansions().expect("plain terms");
    assert_eq!(
        plain
            .iter()
            .map(|expansion| (expansion.term.as_str(), expansion.boost_thousandths))
            .collect::<Vec<_>>(),
        vec![("alpha", 1_000), ("beta", 1_000)]
    );
}

#[test]
fn lexical_preparation_keeps_stops_and_engine_failures_apart() {
    let mut accounting = Accounting::new(u64::MAX, u64::MAX);
    let mut context = PreparedLexicalQuery::new(term_query());
    assert_eq!(
        context.prepare_term(
            &mut accounting,
            receipt(1, 1),
            Err(ScanError::Timeout { partial: false }),
            "",
            tables(Some(1)),
        ),
        Err(FusionError::Timeout { partial: false })
    );
    let failed = context.prepare_term(
        &mut accounting,
        receipt(1, 1),
        Ok(()),
        "",
        QueryTables {
            bytes: Some(5),
            built: Err("statistics".to_owned()),
        },
    );
    assert_eq!(
        failed,
        Err(FusionError::Leg {
            leg: FusionLeg::Lexical,
            kind: LegFailureKind::Lexical,
            detail: "statistics".to_owned()
        })
    );
    assert_eq!(accounting.audit().temporary_bytes, 0);
    assert!(matches!(
        context.prepare_term(&mut accounting, receipt(1, 1), Ok(()), "", tables(None)),
        Err(FusionError::Leg {
            kind: LegFailureKind::Store(StoreErrorKind::BudgetExceeded),
            ..
        })
    ));
}

#[test]
fn structured_expansions_are_handed_out_once() {
    let mut accounting = Accounting::new(u64::MAX, u64::MAX);
    let mut context = PreparedLexicalQuery::new(PinnedLexicalQuery::Structured { identity: 2 });
    let expansion = LexicalExpansion {
        term: "night".to_owned(),
        boost_thousandths: 500,
        kind: LexicalMatchKind::Phonetic,
    };
    context
        .prepare_structured(
            &mut accounting,
            receipt(6, 2),
            Ok(()),
            Ok(vec![expansion.clone()]),
            Ok(()),
            "",
            tables(Some(12)),
        )
        .expect("prepared");
    assert_eq!(context.structured_scoring(6, 2), Ok(true));
    assert!(context.structured_scoring(7, 2).is_err());
    assert_eq!(context.take_expansions(), Ok(vec![expansion]));
    assert_eq!(context.take_expansions(), Ok(Vec::new()));
    assert_eq!(accounting.audit().temporary_bytes, 12);
}

#[test]
fn a_phrase_gives_its_working_memory_back_whatever_it_found() {
    let mut accounting = Accounting::new(u64::MAX, 100);
    let mut memory = AccountedCounter::new(AllocationComponent::Temporary);
    reserve_weighted_scratch(&mut memory, &mut accounting, Some(10)).expect("phrase");
    let mut phrase =
        PhraseEligibility::new(Ok(Some(10)), memory, &mut accounting).expect("prepared");
    reserve_weighted_scratch(&mut phrase.memory, &mut accounting, Some(60)).expect("scratch");
    assert_eq!(accounting.audit().temporary_bytes, 60);
    assert_eq!(phrase.matches(&mut accounting, Ok(false)), Ok(false));
    assert_eq!(accounting.audit().temporary_bytes, 10);
    reserve_weighted_scratch(&mut phrase.memory, &mut accounting, Some(60)).expect("scratch");
    let failed = phrase.matches(
        &mut accounting,
        Err(PhraseReadError::Control(QueryError::Cancelled {
            partial: false,
        })),
    );
    assert_eq!(failed, Err(QueryError::Cancelled { partial: false }));
    assert_eq!(accounting.audit().temporary_bytes, 10);
    assert_eq!(
        reserve_weighted_scratch(&mut phrase.memory, &mut accounting, None),
        Err(QueryError::Store(StoreError::BudgetExceeded {
            needed: u64::MAX,
            budget: u64::MAX,
            component: "temporary"
        }))
    );
    let refused = PhraseEligibility::new(
        Err(PhraseReadError::Storage(SegmentError::Other(
            "postings".to_owned(),
        ))),
        phrase.memory,
        &mut accounting,
    );
    assert!(matches!(
        refused,
        Err(QueryError::Store(StoreError::Segment(_)))
    ));
    assert_eq!(accounting.audit().temporary_bytes, 0);
    let none = AccountedCounter::new(AllocationComponent::Temporary);
    let mut open = PhraseEligibility::new(Ok(None), none, &mut accounting).expect("no phrase");
    assert_eq!(
        open.matches(
            &mut accounting,
            Err(PhraseReadError::Storage(SegmentError::Other(
                "unread".to_owned()
            )))
        ),
        Ok(true)
    );
    assert_eq!(
        phrase_error(PhraseReadError::Control(QueryError::Timeout {
            partial: false
        })),
        QueryError::Timeout { partial: false }
    );
}

fn begin(vocabulary: &CachedVocabulary, version: u32) -> PhoneticBuild {
    match vocabulary.phonetic(version) {
        PhoneticStep::Build(build) => build,
        PhoneticStep::Reuse(cached) => panic!("unexpected {cached:?}"),
    }
}

#[test]
fn astra_14_phonetic_cache_tracks_vocabulary_and_algorithm_identity() {
    let mut accounting = Accounting::new(u64::MAX, u64::MAX);
    let mut old = CachedVocabulary { phonetic: None };
    let mut build = begin(&old, 1);
    build
        .reserve(&mut accounting, Some(100), Some(40), 24)
        .expect("first index");
    assert_eq!(accounting.audit().temporary_bytes, 40);
    assert_eq!(
        old.finish_phonetic(&mut accounting, build, Ok(())),
        Ok(None)
    );
    let first = old.phonetic.expect("first");
    assert_eq!(first.memory.bytes, 124);
    match old.phonetic(1) {
        PhoneticStep::Reuse(reused) => assert_eq!(reused, first),
        PhoneticStep::Build(_) => panic!("an index of this version is there"),
    }
    // A stopped replacement leaves the slot and the totals as they were.
    let mut build = begin(&old, 2);
    build
        .reserve(&mut accounting, Some(70), Some(30), 24)
        .expect("replacement");
    assert_eq!(
        old.finish_phonetic(
            &mut accounting,
            build,
            Err(QueryError::Scan(ScanError::Cancelled { partial: false }))
        ),
        Err(QueryError::Scan(ScanError::Cancelled { partial: false }))
    );
    assert_eq!(old.phonetic, Some(first));
    assert_eq!(accounting.audit().temporary_bytes, 0);
    assert_eq!(accounting.audit().resident_bytes, 124);
    // A new algorithm takes the slot; the old index stays charged for its readers.
    let mut build = begin(&old, 2);
    build
        .reserve(&mut accounting, Some(70), Some(30), 24)
        .expect("replacement");
    assert_eq!(
        old.finish_phonetic(&mut accounting, build, Ok(())),
        Ok(Some(first))
    );
    let replaced = old.phonetic.expect("replaced");
    assert_ne!(first, replaced);
    assert_eq!(
        accounting.audit().resident_bytes,
        first.memory.bytes + replaced.memory.bytes
    );
    first.memory.release(&mut accounting);
    replaced.memory.release(&mut accounting);
    assert_eq!(accounting.audit().resident_bytes, 0);
    assert_eq!(accounting.audit().temporary_bytes, 0);
}

#[test]
fn astra_14_refused_phonetic_index_is_not_published() {
    let mut accounting = Accounting::new(u64::MAX, 128);
    let mut dictionary = CachedVocabulary { phonetic: None };
    for _ in 0..2 {
        let mut build = begin(&dictionary, 1);
        let refused = build
            .reserve(&mut accounting, Some(1024), Some(129), 24)
            .expect_err("scratch over the ceiling");
        assert!(matches!(
            refused,
            QueryError::Store(StoreError::BudgetExceeded {
                component: "temporary",
                ..
            })
        ));
        assert!(dictionary
            .finish_phonetic(&mut accounting, build, Err(refused))
            .is_err());
        assert!(dictionary.phonetic.is_none());
        assert_eq!(accounting.audit().temporary_bytes, 0);
        assert_eq!(accounting.audit().resident_bytes, 0);
    }
}

#[test]
fn an_index_whose_size_overflows_is_named() {
    let mut accounting = Accounting::new(u64::MAX, u64::MAX);
    let dictionary = CachedVocabulary { phonetic: None };
    let mut build = begin(&dictionary, 1);
    for owned in [None, Some(u64::MAX)] {
        assert_eq!(
            build.reserve(&mut accounting, owned, Some(0), 24),
            Err(QueryError::Store(StoreError::BudgetExceeded {
                needed: u64::MAX,
                budget: u64::MAX,
                component: "phonetic vocabulary cache"
            }))
        );
    }
}

#[test]
fn an_expansion_needs_its_vocabulary_only_where_it_says_so() {
    let refused = || Err(QueryError::Cancelled { partial: false });
    assert!(matches!(
        expand(true, refused(), Ok(Vec::new())),
        Err(ExpansionError::Query(QueryError::Cancelled {
            partial: false
        }))
    ));
    assert!(expand(false, refused(), Ok(Vec::new())).is_ok());
    assert!(matches!(
        expand(true, Ok(()), Err(ExpansionError::Shape("wide".to_owned()))),
        Err(ExpansionError::Shape(_))
    ));
}

#[test]
fn scores_from_before_a_failure_are_read_back() {
    let source = RowSource::Sealed(SegmentId { value: 5 });
    let rows = (0..17_usize).collect::<Vec<_>>();
    let documents = (0..17).map(|row| version(row + 1)).collect::<Vec<_>>();
    let exact = (0..17).map(|row| (row as f64).to_bits()).collect::<Vec<_>>();
    let entry_bytes = std::mem::size_of::<GraphExactScore>() as u64;
    let mut accounting = Accounting::new(u64::MAX, 47 * entry_bytes);
    let mut context = PreparedVectorQuery::new(QUERY, 1, true, None);
    context
        .rescore_graph(&mut accounting, QUERY, source, &rows, &documents, None, &exact)
        .expect_err("the last row does not fit");
    let kept = context.graph_scores.as_slice().to_vec();
    assert_eq!(kept.len(), 16);
    context
        .rescore_graph(&mut accounting, QUERY + 1, source, &rows, &documents, None, &exact)
        .expect_err("foreign");
    assert_eq!(context.graph_scores.as_slice(), kept.as_slice());
    assert_eq!(accounting.audit().temporary_bytes, 16 * entry_bytes);
    let first = rows[..16].to_vec();
    let reused = context
        .rescore_graph(
            &mut accounting,
            QUERY,
            source,
            &first,
            &documents[..16].to_vec(),
            None,
            &vec![0; 16],
        )
        .expect("kept");
    assert_eq!(reused.scores, exact[..16]);
    assert_eq!(reused.candidates_rescored, 0);
    context.release(&mut accounting);
    assert_eq!(accounting.audit().temporary_bytes, 0);
}
