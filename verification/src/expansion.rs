//! Vocabulary expansion and the cache of its phonetic companion.

use crate::accounting::AccountedCounter;
use crate::accounting::Accounting;
use crate::accounting::AllocationComponent;
use crate::error::QueryError;
use crate::error::StoreError;
use crate::lexical::LexicalExpansion;
use crate::prepared_lexical::reserve_weighted_scratch;
use crate::prepared_lexical::unbounded_refusal;
use vstd::prelude::*;

verus! {

/// Why a query could not be expanded.
#[derive(Clone, Debug)]
pub enum ExpansionError {
    /// The query was stopped or refused memory.
    Query(QueryError),
    /// The query asks for more than an expansion may hold.
    Shape(String),
}

impl From<QueryError> for ExpansionError {
    fn from(error: QueryError) -> (result: ExpansionError) {
        ExpansionError::Query(error)
    }
}

impl vstd::std_specs::convert::FromSpecImpl<QueryError> for ExpansionError {
    open spec fn obeys_from_spec() -> bool {
        true
    }

    open spec fn from_spec(error: QueryError) -> ExpansionError {
        ExpansionError::Query(error)
    }
}

/// A phonetic index that a reader may still hold after its replacement.
#[derive(Clone, Copy, Debug, PartialEq, Eq, Structural)]
pub struct CachedPhonetic {
    /// Version of the encoder that it was built with.
    pub version: u32,
    /// What it is charged.
    pub memory: AccountedCounter,
}

/// The vocabulary of one assembly with the slot of its phonetic index.
#[derive(Debug)]
pub struct CachedVocabulary {
    pub phonetic: Option<CachedPhonetic>,
}

/// A phonetic index that is being built.
#[derive(Debug)]
pub struct PhoneticBuild {
    pub version: u32,
    pub memory: AccountedCounter,
    pub temporary: AccountedCounter,
}

/// Whether an index can be reused.
#[derive(Debug)]
pub enum PhoneticStep {
    Reuse(CachedPhonetic),
    Build(PhoneticBuild),
}

/// The refusal of a phonetic index whose size overflows.
pub open spec fn phonetic_overflow() -> StoreError {
    StoreError::BudgetExceeded {
        needed: u64::MAX,
        budget: u64::MAX,
        component: "phonetic vocabulary cache",
    }
}

impl PhoneticBuild {
    /// The totals hold at least what the build is charged.
    pub open spec fn covered_by(self, accounting: Accounting) -> bool {
        &&& self.memory.component == AllocationComponent::Cache
        &&& self.temporary.component == AllocationComponent::Temporary
        &&& self.memory.bytes + self.temporary.bytes <= accounting.resident
        &&& self.temporary.bytes <= accounting.temporary
    }

    /// Charges the working memory and then the index, as the builder asks for
    /// them; `overhead` is what the cache adds to the index.
    pub fn reserve(
        &mut self,
        accounting: &mut Accounting,
        owned: Option<u64>,
        scratch: Option<u64>,
        overhead: u64,
    ) -> (result: Result<(), QueryError>)
        requires
            old(self).covered_by(*old(accounting)),
        ensures
            final(self).covered_by(*final(accounting)),
            final(self).version == old(self).version,
            final(accounting).budgets == old(accounting).budgets,
            final(accounting).temporary - final(self).temporary.bytes == old(accounting).temporary
                - old(self).temporary.bytes,
            final(accounting).resident - final(self).temporary.bytes - final(self).memory.bytes
                == old(accounting).resident - old(self).temporary.bytes - old(self).memory.bytes,
            result is Ok ==> {
                &&& scratch == Some(final(self).temporary.bytes)
                &&& owned is Some
                &&& final(self).memory.bytes == owned->0 + overhead
            },
            match scratch {
                None => {
                    &&& result == Err::<(), QueryError>(QueryError::Store(unbounded_refusal()))
                    &&& *final(self) == *old(self)
                    &&& *final(accounting) == *old(accounting)
                },
                Some(working) => match old(self).temporary.change(*old(accounting), working) {
                    Err(error) => {
                        &&& result == Err::<(), QueryError>(QueryError::Store(error))
                        &&& *final(self) == *old(self)
                        &&& *final(accounting) == *old(accounting)
                    },
                    Ok(_) => {
                        &&& final(self).temporary.bytes == working
                        &&& if owned is None || owned->0 + overhead > u64::MAX {
                            &&& result == Err::<(), QueryError>(
                                QueryError::Store(phonetic_overflow()),
                            )
                            &&& final(self).memory == old(self).memory
                        } else {
                            let charged = Accounting {
                                resident: (old(accounting).resident
                                    - old(self).temporary.bytes + working) as u64,
                                temporary: (old(accounting).temporary
                                    - old(self).temporary.bytes + working) as u64,
                                ..*old(accounting)
                            };
                            match old(self).memory.change(charged, (owned->0 + overhead) as u64) {
                                Ok(_) => result is Ok,
                                Err(error) => {
                                    &&& result == Err::<(), QueryError>(QueryError::Store(error))
                                    &&& final(self).memory == old(self).memory
                                },
                            }
                        }
                    },
                },
            },
    {
        match reserve_weighted_scratch(&mut self.temporary, accounting, scratch) {
            Ok(_) => {},
            Err(error) => {
                return Err(error);
            },
        }
        let total: Option<u64> = match owned {
            None => None,
            Some(bytes) => bytes.checked_add(overhead),
        };
        match total {
            None => Err(
                QueryError::Store(
                    StoreError::BudgetExceeded {
                        needed: u64::MAX,
                        budget: u64::MAX,
                        component: "phonetic vocabulary cache",
                    },
                ),
            ),
            Some(bytes) => match self.memory.set(accounting, bytes) {
                Ok(_) => Ok(()),
                Err(error) => Err(QueryError::Store(error)),
            },
        }
    }
}

impl CachedVocabulary {
    /// Reuses the index of this encoder version, or begins to build one.
    pub fn phonetic(&self, version: u32) -> (step: PhoneticStep)
        ensures
            match self.phonetic {
                Some(cached) if cached.version == version => step == PhoneticStep::Reuse(cached),
                _ => step == PhoneticStep::Build(
                    PhoneticBuild {
                        version,
                        memory: AccountedCounter {
                            bytes: 0,
                            component: AllocationComponent::Cache,
                        },
                        temporary: AccountedCounter {
                            bytes: 0,
                            component: AllocationComponent::Temporary,
                        },
                    },
                ),
            },
    {
        match self.phonetic {
            Some(cached) => {
                if cached.version == version {
                    return PhoneticStep::Reuse(cached);
                }
            },
            None => {},
        }
        PhoneticStep::Build(
            PhoneticBuild {
                version,
                memory: AccountedCounter::new(AllocationComponent::Cache),
                temporary: AccountedCounter::new(AllocationComponent::Temporary),
            },
        )
    }

    /// Ends a build. One that succeeded takes the slot, and what it replaces is
    /// handed out: its charge stands until its last reader is gone. One that
    /// failed gives everything back and leaves the slot as it was.
    pub fn finish_phonetic(
        &mut self,
        accounting: &mut Accounting,
        build: PhoneticBuild,
        built: Result<(), QueryError>,
    ) -> (result: Result<Option<CachedPhonetic>, QueryError>)
        requires
            build.covered_by(*old(accounting)),
        ensures
            final(accounting).budgets == old(accounting).budgets,
            final(accounting).temporary == old(accounting).temporary - build.temporary.bytes,
            match built {
                Ok(_) => {
                    &&& result == Ok::<Option<CachedPhonetic>, QueryError>(old(self).phonetic)
                    &&& final(self).phonetic == Some(
                        CachedPhonetic { version: build.version, memory: build.memory },
                    )
                    &&& final(accounting).resident == old(accounting).resident
                        - build.temporary.bytes
                },
                Err(error) => {
                    &&& result == Err::<Option<CachedPhonetic>, QueryError>(error)
                    &&& *final(self) == *old(self)
                    &&& final(accounting).resident == old(accounting).resident
                        - build.temporary.bytes - build.memory.bytes
                },
            },
    {
        build.temporary.release(accounting);
        match built {
            Ok(_) => {
                let replaced = self.phonetic;
                self.phonetic = Some(
                    CachedPhonetic { version: build.version, memory: build.memory },
                );
                Ok(replaced)
            },
            Err(error) => {
                build.memory.release(accounting);
                Err(error)
            },
        }
    }
}

/// Expands a query: the vocabulary is read only where the query needs one, and
/// its failure comes before the expansion's own.
pub fn expand(
    needs_vocabulary: bool,
    vocabulary: Result<(), QueryError>,
    expanded: Result<Vec<LexicalExpansion>, ExpansionError>,
) -> (result: Result<Vec<LexicalExpansion>, ExpansionError>)
    ensures
        result == if needs_vocabulary && vocabulary is Err {
            Err(ExpansionError::Query(vocabulary->Err_0))
        } else {
            expanded
        },
{
    if needs_vocabulary {
        match vocabulary {
            Ok(_) => {},
            Err(error) => {
                return Err(ExpansionError::from(error));
            },
        }
    }
    expanded
}

} // verus!
