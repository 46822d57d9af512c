use zeppelin_embed::accounting::{
    Accounted, AccountedCounter, Accounting, AllocationComponent,
};
use zeppelin_embed::assembly_cache::{BuiltAssembly, LexicalIndexCache};
use zeppelin_embed::clock::{ManualMonotonicClock, MonotonicClock};
use zeppelin_embed::control::{
    Deadline, LockAttempt, LockStep, QueryCancellation, QueryControl, StopFlags,
};
use zeppelin_embed::error::{QueryError, ScanError, StoreError};
use zeppelin_embed::expansion::{CachedVocabulary, PhoneticStep};
use zeppelin_embed::lexical::LexicalAssemblyError;
use zeppelin_embed::prepared_lexical::{PhraseEligibility, PhraseReadError};

const TIMEOUT: ScanError = ScanError::Timeout { partial: false };

fn built(segments: usize, bytes: u64) -> Result<BuiltAssembly, LexicalAssemblyError> {
    Ok(BuiltAssembly { segments, bytes })
}

fn unlimited() -> Accounting {
    Accounting::new(u64::MAX, u64::MAX)
}

#[test]
fn a_generation_is_assembled_once() {
    let mut accounting = unlimited();
    let mut cache = LexicalIndexCache::new();
    let first = cache.assemble(3, built(2, 100), &mut accounting).expect("built");
    assert!(!first.cache_hit);
    assert_eq!(first.segments, 2);
    assert!(cache.is_of(3));
    assert!(!cache.is_of(4));
    let again = cache.assemble(3, built(2, 100), &mut accounting).expect("found");
    assert!(again.cache_hit);
    assert_eq!(again.assembly, first.assembly);
    assert_eq!(accounting.audit().resident_bytes, 100);
}

#[test]
fn astra_16_evicted_assembly_remains_accounted_until_last_query_drops() {
    let mut accounting = unlimited();
    let mut cache = LexicalIndexCache::new();
    let old = cache.assemble(3, built(2, 100), &mut accounting).expect("old query");
    let old_charge = accounting.audit().resident_bytes;
    let new = cache.assemble(4, built(2, 130), &mut accounting).expect("new query");
    assert!(!new.cache_hit);
    assert!(accounting.audit().resident_bytes > old_charge);
    cache.evict(&mut accounting);
    cache.release(new.assembly, &mut accounting);
    assert_eq!(accounting.audit().resident_bytes, old_charge);
    cache.release(old.assembly, &mut accounting);
    assert_eq!(accounting.audit().resident_bytes, 0);
    assert!(cache.held.is_empty());
}

#[test]
fn astra_17_live_df_cache_memory_released_with_reader() {
    let mut accounting = unlimited();
    let mut index = LexicalIndexCache::new();
    let assembly = index.assemble(3, built(2, 700), &mut accounting).expect("query");
    // The frequency cache of a tombstoned contribution is charged on its own, and
    // a reader of it may outlive the assembly.
    let mut cache = Accounted::<(u64, u64)>::unaccounted_empty(AllocationComponent::Cache);
    cache.try_reserve_total(&mut accounting, 300).expect("frequencies");
    cache.push((7, 2)).expect("live documents of a term");
    let bytes = cache.resident_bytes();
    assert!(bytes > 4096, "keys, entries and Arc storage stay reserved");
    let before = accounting.audit().resident_bytes;
    assert_eq!(before, bytes + index.held[0].bytes);
    index.evict(&mut accounting);
    assert_eq!(accounting.audit().resident_bytes, before);
    index.release(assembly.assembly, &mut accounting);
    let held = accounting.audit().resident_bytes;
    assert!(held >= bytes);
    cache.release(&mut accounting);
    assert_eq!(accounting.audit().resident_bytes, held - bytes);
    assert_eq!(accounting.audit().resident_bytes, 0);
}

#[test]
fn astra_16_delayed_old_query_does_not_replace_newer_assembly() {
    let mut accounting = unlimited();
    let mut cache = LexicalIndexCache::new();
    let current = cache.assemble(4, built(2, 130), &mut accounting).expect("new query");
    let delayed = cache.assemble(3, built(2, 100), &mut accounting).expect("old query");
    assert_ne!(delayed.assembly, current.assembly);
    assert_eq!(cache.entry, Some(current.assembly));
    cache.release(delayed.assembly, &mut accounting);
    assert_eq!(accounting.audit().resident_bytes, 130);
    let found = cache.assemble(4, built(2, 130), &mut accounting).expect("cached");
    assert!(found.cache_hit);
    assert_eq!(found.assembly, current.assembly);
}

#[test]
fn astra_16_refused_contribution_leaves_previous_cache_and_no_charge() {
    let mut accounting = Accounting::new(100, u64::MAX);
    let mut cache = LexicalIndexCache::new();
    let old = cache.assemble(3, built(2, 100), &mut accounting).expect("old");
    let result = cache.assemble(4, built(2, 130), &mut accounting);
    assert!(matches!(
        result,
        Err(LexicalAssemblyError::Store(StoreError::BudgetExceeded { component: "cache", .. }))
    ));
    assert_eq!(accounting.audit().resident_bytes, 100);
    assert_eq!(cache.entry, Some(old.assembly));
    cache.release(old.assembly, &mut accounting);
    cache.evict(&mut accounting);
    let fresh = cache.assemble(4, built(2, 90), &mut accounting).expect("fresh");
    assert_eq!(cache.entry, Some(fresh.assembly));
}

#[test]
fn astra_18_public_cold_active_seal_cancels_without_cache_publication() {
    let mut accounting = unlimited();
    let mut cache = LexicalIndexCache::new();
    let before = accounting.audit();
    let result = cache.assemble(1, Err(LexicalAssemblyError::Cancelled(TIMEOUT)), &mut accounting);
    assert!(matches!(
        result,
        Err(LexicalAssemblyError::Cancelled(ScanError::Timeout { partial: false }))
    ));
    assert_eq!(accounting.audit(), before);
    assert_eq!(cache.entry, None);
    let clean = cache.assemble(1, built(1, 60), &mut accounting).expect("fresh complete query");
    assert_eq!(cache.entry, Some(clean.assembly));
}

#[test]
fn astra_18_public_statistics_timeout_releases_contribution_reservation() {
    let mut accounting = unlimited();
    let mut cache = LexicalIndexCache::new();
    let first = cache.assemble(2, built(1, 60), &mut accounting).expect("complete reference");
    cache.release(first.assembly, &mut accounting);
    cache.evict(&mut accounting);
    let before = accounting.audit();
    let result = cache.assemble(2, Err(LexicalAssemblyError::Cancelled(TIMEOUT)), &mut accounting);
    assert!(result.is_err());
    assert_eq!(cache.entry, None);
    assert_eq!(accounting.audit(), before);
    assert!(cache.assemble(2, built(1, 60), &mut accounting).is_ok());
}

#[test]
fn astra_18_public_phrase_timeout_releases_partial_position_work() {
    let mut accounting = unlimited();
    let before = accounting.audit();
    let mut memory = AccountedCounter::new(AllocationComponent::Temporary);
    memory.set(&mut accounting, 10).expect("phrase");
    let mut phrase =
        PhraseEligibility::new(Ok(Some(10)), memory, &mut accounting).expect("prepared");
    phrase.memory.set(&mut accounting, 74).expect("positions");
    let stopped = PhraseReadError::Control(QueryError::Scan(TIMEOUT));
    assert_eq!(
        phrase.matches(&mut accounting, Err(stopped)),
        Err(QueryError::Scan(ScanError::Timeout { partial: false }))
    );
    assert_eq!(accounting.audit().temporary_bytes, 10);
    phrase.memory.release(&mut accounting);
    assert_eq!(accounting.audit(), before);
}

#[test]
fn astra_18_public_expansion_timeout_does_not_publish_partial_caches() {
    let mut accounting = unlimited();
    let before = accounting.audit();
    let mut vocabulary = CachedVocabulary { phonetic: None };
    let mut build = match vocabulary.phonetic(1) {
        PhoneticStep::Build(build) => build,
        PhoneticStep::Reuse(cached) => panic!("{cached:?}"),
    };
    build.reserve(&mut accounting, Some(40), Some(16), 8).expect("reserved");
    assert_eq!(
        vocabulary
            .finish_phonetic(&mut accounting, build, Err(QueryError::Scan(TIMEOUT)))
            .map(|_| ()),
        Err(QueryError::Scan(ScanError::Timeout { partial: false }))
    );
    assert!(vocabulary.phonetic.is_none());
    assert_eq!(accounting.audit(), before);
}

#[test]
fn astra_18_dictionary_cache_waits_use_the_original_deadline() {
    for component in ["vocabulary cache", "phonetic vocabulary cache"] {
        let mut flags = StopFlags::new();
        let mut clock = ManualMonotonicClock::new();
        let deadline =
            Deadline::after_with_test_clock(1_000_000_000, &clock, &mut flags).expect("deadline");
        let lease = flags.add_flag();
        let cancellation = QueryCancellation::new(QueryControl::Deadline(deadline), lease);
        let held = LockAttempt::WouldBlock;
        assert_eq!(cancellation.begin_cache_lock(&mut flags, clock.now()), Ok(()));
        let entered = cancellation.cache_lock_step(&mut flags, clock.now(), held, component);
        assert_eq!(entered, Ok(LockStep::Retry));
        clock.advance(2_000_000_000);
        assert_eq!(
            cancellation.cache_lock_step(&mut flags, clock.now(), held, component),
            Err(QueryError::Scan(ScanError::Timeout { partial: false }))
        );
    }
}
