//! The cache of the assembled lexical index, and what its assemblies are charged.

use crate::accounting::Accounting;
use crate::accounting::AllocationComponent;
use crate::lexical::LexicalAssemblyError;
use crate::prepared_lexical::AssemblyReceipt;
use vstd::prelude::*;

verus! {

/// One assembled lexical index that somebody holds.
#[derive(Clone, Copy, Debug, PartialEq, Eq, Structural)]
pub struct HeldAssembly {
    pub assembly: u64,
    pub generation: u64,
    pub segments: usize,
    /// Bytes that it is charged.
    pub bytes: u64,
    /// The queries that hold it, and the cache where it does.
    pub owners: u64,
}

/// An index that was built for one query, and what it takes.
#[derive(Clone, Copy, Debug, PartialEq, Eq, Structural)]
pub struct BuiltAssembly {
    pub segments: usize,
    pub bytes: u64,
}

/// The assemblies of a store: the one that later queries find, and those that
/// earlier queries still hold.
#[derive(Debug)]
pub struct LexicalIndexCache {
    pub held: Vec<HeldAssembly>,
    pub entry: Option<u64>,
    /// Identity of the next assembly.
    pub next: u64,
}

/// The assembly of an identity, where somebody holds it.
pub open spec fn held_as(held: Seq<HeldAssembly>, assembly: u64) -> Option<HeldAssembly>
    decreases held.len(),
{
    if held.len() == 0 {
        None
    } else if held.last().assembly == assembly {
        Some(held.last())
    } else {
        held_as(held.drop_last(), assembly)
    }
}

/// Bytes that all held assemblies are charged.
pub open spec fn charged_bytes(held: Seq<HeldAssembly>) -> nat
    decreases held.len(),
{
    if held.len() == 0 {
        0
    } else {
        charged_bytes(held.drop_last()) + held.last().bytes as nat
    }
}

proof fn lemma_held_member(held: Seq<HeldAssembly>, assembly: u64)
    ensures
        match held_as(held, assembly) {
            Some(found) => held.contains(found) && found.assembly == assembly,
            None => forall|i: int|
                0 <= i < held.len() ==> (#[trigger] held[i]).assembly != assembly,
        },
    decreases held.len(),
{
    if held.len() > 0 {
        let shorter = held.drop_last();
        lemma_held_member(shorter, assembly);
        if held.last().assembly == assembly {
            assert(held[held.len() - 1] == held.last());
        } else if let Some(found) = held_as(shorter, assembly) {
            let at = choose|i: int| 0 <= i < shorter.len() && shorter[i] == found;
            assert(held[at] == found);
        } else {
            assert forall|i: int| 0 <= i < held.len() implies (#[trigger] held[i]).assembly
                != assembly by {
                if i < shorter.len() {
                    assert(shorter[i] == held[i]);
                }
            }
        }
    }
}

proof fn lemma_held_at(held: Seq<HeldAssembly>, at: int)
    requires
        distinct(held),
        0 <= at < held.len(),
    ensures
        held_as(held, held[at].assembly) == Some(held[at]),
        held[at].bytes <= charged_bytes(held),
    decreases held.len(),
{
    let shorter = held.drop_last();
    if at < held.len() - 1 {
        lemma_prefix_is_distinct(held);
        assert(shorter[at] == held[at]);
        lemma_held_at(shorter, at);
    }
}

proof fn lemma_prefix_is_distinct(held: Seq<HeldAssembly>)
    requires
        distinct(held),
        held.len() > 0,
    ensures
        distinct(held.drop_last()),
{
    let shorter = held.drop_last();
    assert forall|i: int, j: int| 0 <= i < j < shorter.len() implies (
    #[trigger] shorter[i]).assembly != (#[trigger] shorter[j]).assembly by {
        assert(shorter[i] == held[i] && shorter[j] == held[j]);
    }
}

/// No two assemblies have the same identity.
pub open spec fn distinct(held: Seq<HeldAssembly>) -> bool {
    forall|i: int, j: int|
        0 <= i < j < held.len() ==> (#[trigger] held[i]).assembly != (#[trigger] held[j]).assembly
}

proof fn lemma_update(held: Seq<HeldAssembly>, at: int, owners: u64)
    requires
        distinct(held),
        0 <= at < held.len(),
    ensures
        ({
            let after = held.update(at, HeldAssembly { owners, ..held[at] });
            &&& distinct(after)
            &&& charged_bytes(after) == charged_bytes(held)
            &&& forall|assembly: u64| #[trigger]
                held_as(after, assembly) == if assembly == held[at].assembly {
                    Some(HeldAssembly { owners, ..held[at] })
                } else {
                    held_as(held, assembly)
                }
        }),
    decreases held.len(),
{
    let after = held.update(at, HeldAssembly { owners, ..held[at] });
    assert forall|i: int, j: int| 0 <= i < j < after.len() implies (#[trigger] after[i]).assembly
        != (#[trigger] after[j]).assembly by {
        assert(held[i].assembly == after[i].assembly && held[j].assembly == after[j].assembly);
    }
    let shorter = held.drop_last();
    if at < held.len() - 1 {
        lemma_prefix_is_distinct(held);
        assert(shorter[at] == held[at]);
        lemma_update(shorter, at, owners);
        let fewer = shorter.update(at, HeldAssembly { owners, ..held[at] });
        assert(after.drop_last() == fewer);
        assert(after.last() == held.last());
        assert(held[held.len() - 1].assembly != held[at].assembly);
        assert forall|assembly: u64| #[trigger]
            held_as(after, assembly) == if assembly == held[at].assembly {
                Some(HeldAssembly { owners, ..held[at] })
            } else {
                held_as(held, assembly)
            } by {
            assert(held_as(fewer, assembly) == if assembly == shorter[at].assembly {
                Some(HeldAssembly { owners, ..shorter[at] })
            } else {
                held_as(shorter, assembly)
            });
        }
    } else {
        assert(after.drop_last() == shorter);
    }
}

proof fn lemma_remove(held: Seq<HeldAssembly>, at: int)
    requires
        distinct(held),
        0 <= at < held.len(),
    ensures
        distinct(held.remove(at)),
        charged_bytes(held.remove(at)) == charged_bytes(held) - held[at].bytes,
        forall|assembly: u64| #[trigger]
            held_as(held.remove(at), assembly) == if assembly == held[at].assembly {
                None
            } else {
                held_as(held, assembly)
            },
    decreases held.len(),
{
    let after = held.remove(at);
    assert forall|i: int, j: int| 0 <= i < j < after.len() implies (#[trigger] after[i]).assembly
        != (#[trigger] after[j]).assembly by {
        let from = |n: int| if n < at { n } else { n + 1 };
        assert(after[i] == held[from(i)] && after[j] == held[from(j)]);
    }
    let shorter = held.drop_last();
    if at < held.len() - 1 {
        lemma_prefix_is_distinct(held);
        assert(shorter[at] == held[at]);
        lemma_remove(shorter, at);
        assert(after.drop_last() == shorter.remove(at));
        assert(after.last() == held.last());
        assert(held[held.len() - 1].assembly != held[at].assembly);
        assert forall|assembly: u64| #[trigger]
            held_as(after, assembly) == if assembly == held[at].assembly {
                None
            } else {
                held_as(held, assembly)
            } by {
            assert(held_as(shorter.remove(at), assembly) == if assembly == shorter[at].assembly {
                None
            } else {
                held_as(shorter, assembly)
            });
        }
    } else {
        assert(after == shorter);
        assert forall|assembly: u64| #[trigger]
            held_as(after, assembly) == if assembly == held[at].assembly {
                None
            } else {
                held_as(held, assembly)
            } by {
            if assembly == held[at].assembly {
                lemma_held_member(shorter, assembly);
                if let Some(found) = held_as(shorter, assembly) {
                    let i = choose|i: int| 0 <= i < shorter.len() && shorter[i] == found;
                    assert(held[i].assembly == held[at].assembly);
                }
            }
        }
    }
}

proof fn lemma_push(held: Seq<HeldAssembly>, item: HeldAssembly)
    requires
        distinct(held),
        held_as(held, item.assembly) is None,
    ensures
        distinct(held.push(item)),
        charged_bytes(held.push(item)) == charged_bytes(held) + item.bytes,
        forall|assembly: u64| #[trigger]
            held_as(held.push(item), assembly) == if assembly == item.assembly {
                Some(item)
            } else {
                held_as(held, assembly)
            },
{
    let after = held.push(item);
    assert(after.drop_last() == held);
    lemma_held_member(held, item.assembly);
    assert forall|i: int, j: int| 0 <= i < j < after.len() implies (#[trigger] after[i]).assembly
        != (#[trigger] after[j]).assembly by {
        assert(after[i] == held[i]);
        if j < held.len() {
            assert(after[j] == held[j]);
        }
    }
}

impl LexicalIndexCache {
    /// Every assembly has an owner and an identity of its own.
    pub open spec fn owned(self) -> bool {
        &&& distinct(self.held@)
        &&& forall|i: int|
            0 <= i < self.held@.len() ==> (#[trigger] self.held@[i]).owners > 0
                && self.held@[i].assembly < self.next
    }

    /// Every assembly is owned, and the one that later queries find is held.
    pub open spec fn wf(self) -> bool {
        &&& self.owned()
        &&& self.entry matches Some(assembly) ==> self.holds(assembly) is Some
    }

    /// The assembly of an identity, where somebody holds it.
    pub open spec fn holds(self, assembly: u64) -> Option<HeldAssembly> {
        held_as(self.held@, assembly)
    }

    /// The assembly that later queries find.
    pub open spec fn cached(self) -> Option<HeldAssembly> {
        match self.entry {
            Some(assembly) => self.holds(assembly),
            None => None,
        }
    }

    /// The totals hold at least what the assemblies are charged.
    pub open spec fn covered_by(self, accounting: Accounting) -> bool {
        charged_bytes(self.held@) <= accounting.resident
    }

    /// An empty cache.
    pub fn new() -> (cache: LexicalIndexCache)
        ensures
            cache.wf(),
            cache.held@ == Seq::<HeldAssembly>::empty(),
            cache.entry is None,
            cache.next == 0,
    {
        LexicalIndexCache { held: Vec::new(), entry: None, next: 0 }
    }

    fn place(&self, assembly: u64) -> (at: usize)
        requires
            self.owned(),
            self.holds(assembly) is Some,
        ensures
            at < self.held@.len(),
            self.holds(assembly) == Some(self.held@[at as int]),
            self.held@[at as int].assembly == assembly,
    {
        let ghost known = self.holds(assembly)->0;
        proof {
            lemma_held_member(self.held@, assembly);
        }
        let mut at: usize = 0;
        while at < self.held.len() && self.held[at].assembly != assembly
            invariant
                at <= self.held@.len(),
                forall|i: int| 0 <= i < at ==> (#[trigger] self.held@[i]).assembly != assembly,
            decreases self.held@.len() - at,
        {
            at = at + 1;
        }
        proof {
            let found = choose|i: int| 0 <= i < self.held@.len() && self.held@[i] == known;
            assert(self.held@[found].assembly == assembly);
            lemma_held_at(self.held@, at as int);
        }
        at
    }

    /// What is held of an assembly once one owner of another lets go of it: the
    /// last owner takes it along.
    pub open spec fn let_go(self, assembly: u64, other: u64) -> Option<HeldAssembly> {
        match self.holds(other) {
            Some(item) if other == assembly => if item.owners > 1 {
                Some(HeldAssembly { owners: (item.owners - 1) as u64, ..item })
            } else {
                None
            },
            kept => kept,
        }
    }

    /// Bytes that go with one owner of an assembly.
    pub open spec fn freed(self, assembly: u64) -> nat {
        match self.holds(assembly) {
            Some(item) if item.owners == 1 => item.bytes as nat,
            _ => 0,
        }
    }

    /// Lets go of an assembly that a query held. Behind its last owner its charge
    /// is given back.
    pub fn release(&mut self, assembly: u64, accounting: &mut Accounting)
        requires
            old(self).wf(),
            old(self).covered_by(*old(accounting)),
            old(self).holds(assembly) is Some,
            old(self).entry == Some(assembly) ==> (old(self).holds(assembly)->0).owners > 1,
        ensures
            final(self).wf(),
            final(self).covered_by(*final(accounting)),
            final(self).entry == old(self).entry,
            final(self).next == old(self).next,
            forall|other: u64| #[trigger]
                final(self).holds(other) == old(self).let_go(assembly, other),
            charged_bytes(final(self).held@) == charged_bytes(old(self).held@) - old(self).freed(
                assembly,
            ),
            final(accounting).budgets == old(accounting).budgets,
            final(accounting).temporary == old(accounting).temporary,
            final(accounting).resident == old(accounting).resident - old(self).freed(assembly),
    {
        let at = self.place(assembly);
        let item = self.held[at];
        proof {
            lemma_held_at(self.held@, at as int);
        }
        if item.owners > 1 {
            proof {
                lemma_update(self.held@, at as int, (item.owners - 1) as u64);
            }
            self.held.set(at, HeldAssembly { owners: item.owners - 1, ..item });
            assert forall|i: int| 0 <= i < self.held@.len() implies (
            #[trigger] self.held@[i]).owners > 0 && self.held@[i].assembly < self.next by {
                assert(old(self).held@[i].owners > 0);
            }
        } else {
            proof {
                lemma_remove(self.held@, at as int);
            }
            self.held.remove(at);
            accounting.release(item.bytes, AllocationComponent::Cache);
            assert forall|i: int| 0 <= i < self.held@.len() implies (
            #[trigger] self.held@[i]).owners > 0 && self.held@[i].assembly < self.next by {
                let from = if i < at {
                    i
                } else {
                    i + 1
                };
                assert(self.held@[i] == old(self).held@[from]);
            }
        }
    }

    /// Drops the assembly that later queries would find. The queries that hold it
    /// keep it, with its charge.
    pub fn evict(&mut self, accounting: &mut Accounting)
        requires
            old(self).wf(),
            old(self).covered_by(*old(accounting)),
        ensures
            final(self).wf(),
            final(self).covered_by(*final(accounting)),
            final(self).entry is None,
            final(self).next == old(self).next,
            final(accounting).budgets == old(accounting).budgets,
            final(accounting).temporary == old(accounting).temporary,
            match old(self).entry {
                Some(assembly) => {
                    &&& forall|other: u64| #[trigger]
                        final(self).holds(other) == old(self).let_go(assembly, other)
                    &&& charged_bytes(final(self).held@) == charged_bytes(old(self).held@) - old(
                        self,
                    ).freed(assembly)
                    &&& final(accounting).resident == old(accounting).resident - old(self).freed(
                        assembly,
                    )
                },
                None => final(self).held@ == old(self).held@ && *final(accounting) == *old(
                    accounting,
                ),
            },
    {
        if let Some(assembly) = self.entry {
            self.entry = None;
            self.release(assembly, accounting);
        }
    }

    /// Whether the assembly that later queries find is of a generation.
    pub fn is_of(&self, generation: u64) -> (result: bool)
        requires
            self.wf(),
        ensures
            result == (self.cached() matches Some(item) && item.generation == generation),
    {
        match self.entry {
            Some(assembly) => {
                let at = self.place(assembly);
                self.held[at].generation == generation
            },
            None => false,
        }
    }

    /// Finds the assembly of a generation; the query becomes one of its owners.
    fn find(&mut self, generation: u64) -> (found: Option<AssemblyReceipt>)
        requires
            old(self).wf(),
            old(self).cached() matches Some(item) ==> item.owners < u64::MAX,
        ensures
            final(self).wf(),
            final(self).entry == old(self).entry,
            final(self).next == old(self).next,
            charged_bytes(final(self).held@) == charged_bytes(old(self).held@),
            match old(self).cached() {
                Some(item) if item.generation == generation => {
                    &&& found == Some(
                        AssemblyReceipt {
                            assembly: item.assembly,
                            segments: item.segments,
                            cache_hit: true,
                        },
                    )
                    &&& forall|other: u64| #[trigger]
                        final(self).holds(other) == if other == item.assembly {
                            Some(HeldAssembly { owners: (item.owners + 1) as u64, ..item })
                        } else {
                            old(self).holds(other)
                        }
                },
                _ => found is None && *final(self) == *old(self),
            },
    {
        let assembly = match self.entry {
            Some(assembly) => assembly,
            None => {
                return None;
            },
        };
        let at = self.place(assembly);
        let item = self.held[at];
        if item.generation != generation {
            return None;
        }
        proof {
            lemma_update(self.held@, at as int, (item.owners + 1) as u64);
        }
        self.held.set(at, HeldAssembly { owners: item.owners + 1, ..item });
        assert forall|i: int| 0 <= i < self.held@.len() implies (#[trigger] self.held@[i]).owners
            > 0 && self.held@[i].assembly < self.next by {
            assert(old(self).held@[i].owners > 0);
        }
        Some(
            AssemblyReceipt { assembly: item.assembly, segments: item.segments, cache_hit: true },
        )
    }

    /// Whether an assembly of a generation takes the place of the one that is
    /// cached: it does, unless that one is newer.
    pub open spec fn replaced_by(self, generation: u64) -> bool {
        match self.cached() {
            Some(item) => item.generation <= generation,
            None => true,
        }
    }

    /// Takes an assembly in that a query built. It is charged first, and a
    /// refusal changes nothing. Later queries find it, unless a newer one is
    /// there: a query that was delayed never turns the cache back.
    fn keep(
        &mut self,
        generation: u64,
        built: BuiltAssembly,
        accounting: &mut Accounting,
    ) -> (result: Result<AssemblyReceipt, LexicalAssemblyError>)
        requires
            old(self).wf(),
            old(self).next < u64::MAX,
            old(self).covered_by(*old(accounting)),
        ensures
            old(self).takes(
                generation,
                built,
                *old(accounting),
                result,
                *final(self),
                *final(accounting),
            ),
    {
        match accounting.charge(built.bytes, AllocationComponent::Cache) {
            Ok(_) => {},
            Err(error) => {
                return Err(LexicalAssemblyError::Store(error));
            },
        }
        let assembly: u64 = self.next;
        let replaces = match self.entry {
            None => true,
            Some(earlier) => {
                let at = self.place(earlier);
                self.held[at].generation <= generation
            },
        };
        let item = HeldAssembly {
            assembly,
            generation,
            segments: built.segments,
            bytes: built.bytes,
            owners: if replaces {
                2
            } else {
                1
            },
        };
        proof {
            lemma_held_member(self.held@, assembly);
            lemma_push(self.held@, item);
        }
        self.held.push(item);
        self.next = assembly + 1;
        assert forall|i: int| 0 <= i < self.held@.len() implies (#[trigger] self.held@[i]).owners
            > 0 && self.held@[i].assembly < self.next by {
            if i < old(self).held@.len() {
                assert(self.held@[i] == old(self).held@[i]);
            }
        }
        if replaces {
            let earlier = self.entry;
            self.entry = Some(assembly);
            if let Some(known) = earlier {
                proof {
                    lemma_held_member(old(self).held@, known);
                }
                let ghost middle = *self;
                self.release(known, accounting);
                assert forall|other: u64| other != assembly implies #[trigger] self.holds(other)
                    == old(self).let_go(known, other) by {
                    assert(middle.holds(other) == old(self).holds(other));
                }
            }
        }
        Ok(AssemblyReceipt { assembly, segments: built.segments, cache_hit: false })
    }

    /// How an assembly that a query built is taken in.
    pub open spec fn takes(
        self,
        generation: u64,
        built: BuiltAssembly,
        accounting: Accounting,
        result: Result<AssemblyReceipt, LexicalAssemblyError>,
        after: LexicalIndexCache,
        after_accounting: Accounting,
    ) -> bool {
        match accounting.charged(built.bytes, AllocationComponent::Cache) {
            Err(error) => {
                &&& result == Err::<AssemblyReceipt, LexicalAssemblyError>(
                    LexicalAssemblyError::Store(error),
                )
                &&& after == self
                &&& after_accounting == accounting
            },
            Ok(_) => {
                let replaces = self.replaced_by(generation);
                let freed = if replaces && self.entry is Some {
                    self.freed(self.entry->0)
                } else {
                    0
                };
                &&& result == Ok::<AssemblyReceipt, LexicalAssemblyError>(
                    AssemblyReceipt {
                        assembly: self.next,
                        segments: built.segments,
                        cache_hit: false,
                    },
                )
                &&& after.wf()
                &&& after.covered_by(after_accounting)
                &&& after.next == self.next + 1
                &&& after.entry == if replaces {
                    Some(self.next)
                } else {
                    self.entry
                }
                &&& after.holds(self.next) == Some(
                    HeldAssembly {
                        assembly: self.next,
                        generation,
                        segments: built.segments,
                        bytes: built.bytes,
                        owners: if replaces {
                            2
                        } else {
                            1
                        },
                    },
                )
                &&& forall|other: u64|
                    other != self.next ==> #[trigger] after.holds(other) == if replaces
                        && self.entry is Some {
                        self.let_go(self.entry->0, other)
                    } else {
                        self.holds(other)
                    }
                &&& charged_bytes(after.held@) == charged_bytes(self.held@) + built.bytes - freed
                &&& after_accounting.budgets == accounting.budgets
                &&& after_accounting.temporary == accounting.temporary
                &&& after_accounting.resident == accounting.resident + built.bytes - freed
            },
        }
    }

    /// Assembles the index of a pinned generation: the cached one where it is of
    /// that generation, and otherwise the one that the query built.
    pub fn assemble(
        &mut self,
        generation: u64,
        built: Result<BuiltAssembly, LexicalAssemblyError>,
        accounting: &mut Accounting,
    ) -> (result: Result<AssemblyReceipt, LexicalAssemblyError>)
        requires
            old(self).wf(),
            old(self).next < u64::MAX,
            old(self).cached() matches Some(item) ==> item.owners < u64::MAX,
            old(self).covered_by(*old(accounting)),
        ensures
            final(self).wf(),
            final(self).covered_by(*final(accounting)),
            match old(self).cached() {
                Some(item) if item.generation == generation => {
                    &&& result == Ok::<AssemblyReceipt, LexicalAssemblyError>(
                        AssemblyReceipt {
                            assembly: item.assembly,
                            segments: item.segments,
                            cache_hit: true,
                        },
                    )
                    &&& final(self).entry == old(self).entry
                    &&& final(self).next == old(self).next
                    &&& forall|other: u64| #[trigger]
                        final(self).holds(other) == if other == item.assembly {
                            Some(HeldAssembly { owners: (item.owners + 1) as u64, ..item })
                        } else {
                            old(self).holds(other)
                        }
                    &&& charged_bytes(final(self).held@) == charged_bytes(old(self).held@)
                    &&& *final(accounting) == *old(accounting)
                },
                _ => match built {
                    Err(error) => {
                        &&& result == Err::<AssemblyReceipt, LexicalAssemblyError>(error)
                        &&& *final(self) == *old(self)
                        &&& *final(accounting) == *old(accounting)
                    },
                    Ok(index) => old(self).takes(
                        generation,
                        index,
                        *old(accounting),
                        result,
                        *final(self),
                        *final(accounting),
                    ),
                },
            },
    {
        if let Some(receipt) = self.find(generation) {
            return Ok(receipt);
        }
        match built {
            Err(error) => Err(error),
            Ok(index) => self.keep(generation, index, accounting),
        }
    }
}

/// An assembly stays charged while anybody holds it, and its charge is given back
/// with its last owner.
pub proof fn lemma_charge_goes_with_the_last_owner(cache: LexicalIndexCache, assembly: u64)
    requires
        cache.holds(assembly) matches Some(item) && item.owners > 0,
    ensures
        ({
            let item = cache.holds(assembly)->0;
            match cache.let_go(assembly, assembly) {
                Some(rest) => cache.freed(assembly) == 0 && rest.bytes == item.bytes && rest.owners
                    == item.owners - 1,
                None => item.owners == 1 && cache.freed(assembly) == item.bytes,
            }
        }),
{
}

/// A query that was admitted before a newer assembly was published never replaces
/// it.
pub proof fn lemma_delayed_query_keeps_the_newer_assembly(
    cache: LexicalIndexCache,
    generation: u64,
    built: BuiltAssembly,
    accounting: Accounting,
    result: Result<AssemblyReceipt, LexicalAssemblyError>,
    after: LexicalIndexCache,
    after_accounting: Accounting,
)
    requires
        cache.wf(),
        cache.cached() matches Some(item) && item.generation > generation,
        cache.takes(generation, built, accounting, result, after, after_accounting),
    ensures
        after.cached() == cache.cached(),
        after.entry == cache.entry,
{
    lemma_held_member(cache.held@, cache.entry->0);
    let newer = cache.cached()->0;
    let at = choose|i: int| 0 <= i < cache.held@.len() && cache.held@[i] == newer;
    assert(cache.held@[at].assembly < cache.next);
    assert(cache.entry != Some(cache.next));
}

} // verus!
