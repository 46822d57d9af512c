//! Live byte accounting and buffers that are charged before they grow.

use crate::budget::Budgets;
use crate::error::StoreError;
use vstd::prelude::*;

verus! {

/// Engine component that owns an allocation.
#[derive(Clone, Copy, Debug, PartialEq, Eq, Structural)]
pub enum AllocationComponent {
    Snapshot,
    QueryPool,
    Cache,
    Temporary,
}

impl AllocationComponent {
    pub open spec fn spec_name(self) -> &'static str {
        match self {
            AllocationComponent::Snapshot => "snapshot",
            AllocationComponent::QueryPool => "query pool",
            AllocationComponent::Cache => "cache",
            AllocationComponent::Temporary => "temporary",
        }
    }

    /// Whether the component's bytes count against the temporary ceiling.
    pub open spec fn spec_is_temporary(self) -> bool {
        self == AllocationComponent::Temporary
    }

    /// The component's name.
    pub fn name(self) -> (text: &'static str)
        ensures
            text == self.spec_name(),
    {
        match self {
            AllocationComponent::Snapshot => "snapshot",
            AllocationComponent::QueryPool => "query pool",
            AllocationComponent::Cache => "cache",
            AllocationComponent::Temporary => "temporary",
        }
    }
}

/// Live totals of one store.
#[derive(Clone, Copy, Debug, PartialEq, Eq, Structural)]
pub struct AccountingAudit {
    pub resident_bytes: u64,
    pub temporary_bytes: u64,
}

/// Live byte totals under two ceilings.
#[derive(Debug)]
pub struct Accounting {
    pub budgets: Budgets,
    pub resident: u64,
    pub temporary: u64,
}

impl Accounting {
    /// Totals after `bytes` more, where the ceilings allow them.
    pub open spec fn charged(self, bytes: u64, component: AllocationComponent) -> Result<
        (u64, u64),
        StoreError,
    > {
        self.budgets.outcome(
            self.resident,
            self.temporary,
            bytes,
            component.spec_name(),
            component.spec_is_temporary(),
        )
    }

    /// The bytes of `component` that count against the temporary ceiling.
    pub open spec fn temporary_part(bytes: int, component: AllocationComponent) -> int {
        if component.spec_is_temporary() {
            bytes
        } else {
            0
        }
    }

    /// Empty totals under the given ceilings.
    pub fn new(resident: u64, temporary: u64) -> (accounting: Accounting)
        ensures
            accounting.budgets == (Budgets { resident, temporary }),
            accounting.resident == 0,
            accounting.temporary == 0,
    {
        Accounting { budgets: Budgets::new(resident, temporary), resident: 0, temporary: 0 }
    }

    /// The live totals.
    pub fn audit(&self) -> (audit: AccountingAudit)
        ensures
            audit.resident_bytes == self.resident,
            audit.temporary_bytes == self.temporary,
    {
        AccountingAudit { resident_bytes: self.resident, temporary_bytes: self.temporary }
    }

    /// Charges `bytes`, or changes nothing and names the ceiling.
    pub fn charge(&mut self, bytes: u64, component: AllocationComponent) -> (result: Result<
        (),
        StoreError,
    >)
        ensures
            final(self).budgets == old(self).budgets,
            match old(self).charged(bytes, component) {
                Ok(totals) => result is Ok && final(self).resident == totals.0
                    && final(self).temporary == totals.1,
                Err(error) => result == Err::<(), StoreError>(error) && *final(self) == *old(self),
            },
    {
        match self.budgets.check(
            self.resident,
            self.temporary,
            bytes,
            component.name(),
            component == AllocationComponent::Temporary,
        ) {
            Ok(totals) => {
                self.resident = totals.0;
                self.temporary = totals.1;
                Ok(())
            },
            Err(error) => Err(error),
        }
    }

    /// Gives `bytes` back that were charged before.
    pub fn release(&mut self, bytes: u64, component: AllocationComponent)
        requires
            bytes <= old(self).resident,
            component.spec_is_temporary() ==> bytes <= old(self).temporary,
        ensures
            final(self).budgets == old(self).budgets,
            final(self).resident == old(self).resident - bytes,
            final(self).temporary == old(self).temporary - Self::temporary_part(
                bytes as int,
                component,
            ),
    {
        self.resident = self.resident - bytes;
        if component == AllocationComponent::Temporary {
            self.temporary = self.temporary - bytes;
        }
    }
}

/// A buffer whose capacity is charged before it is allocated.
#[derive(Debug)]
pub struct Accounted<T> {
    pub items: Vec<T>,
    pub capacity: usize,
    pub bytes: u64,
    pub component: AllocationComponent,
}

impl<T> Accounted<T> {
    /// Bytes of `capacity` items.
    pub open spec fn bytes_for(capacity: int) -> int {
        capacity * vstd::layout::size_of::<T>()
    }

    /// The charge covers the capacity and the capacity covers the items.
    pub open spec fn well_formed(self) -> bool {
        &&& self.items@.len() <= self.capacity
        &&& self.bytes as int == Self::bytes_for(self.capacity as int)
    }

    /// The totals hold at least what this buffer was charged.
    pub open spec fn covered_by(self, accounting: Accounting) -> bool {
        &&& self.bytes <= accounting.resident
        &&& self.component.spec_is_temporary() ==> self.bytes <= accounting.temporary
    }

    /// A buffer without capacity and without charge.
    pub fn unaccounted_empty(component: AllocationComponent) -> (buffer: Accounted<T>)
        ensures
            buffer.well_formed(),
            buffer.items@.len() == 0,
            buffer.capacity == 0,
            buffer.bytes == 0,
            buffer.component == component,
    {
        assert(0 * vstd::layout::size_of::<T>() == 0);
        Accounted { items: Vec::new(), capacity: 0, bytes: 0, component }
    }

    /// Bytes that are charged.
    pub fn resident_bytes(&self) -> (bytes: u64)
        ensures
            bytes == self.bytes,
    {
        self.bytes
    }

    /// Items that fit without growth.
    pub fn capacity(&self) -> (capacity: usize)
        ensures
            capacity == self.capacity,
    {
        self.capacity
    }

    /// Number of items.
    pub fn len(&self) -> (len: usize)
        ensures
            len == self.items@.len(),
    {
        self.items.len()
    }

    /// Whether the buffer holds no item.
    pub fn is_empty(&self) -> (result: bool)
        ensures
            result == (self.items@.len() == 0),
    {
        self.items.len() == 0
    }

    /// The items.
    pub fn as_slice(&self) -> (items: &[T])
        ensures
            items@ == self.items@,
    {
        self.items.as_slice()
    }

    /// Drops every item and keeps the capacity.
    pub fn clear(&mut self)
        requires
            old(self).well_formed(),
        ensures
            final(self).well_formed(),
            final(self).items@.len() == 0,
            final(self).capacity == old(self).capacity,
            final(self).bytes == old(self).bytes,
            final(self).component == old(self).component,
    {
        self.items.clear();
    }

    /// What an allocation of `capacity` items costs beside all others.
    pub open spec fn cost(
        accounting: Accounting,
        component: AllocationComponent,
        capacity: usize,
    ) -> Result<(u64, u64), StoreError> {
        if Self::bytes_for(capacity as int) > u64::MAX {
            Err(
                StoreError::BudgetExceeded {
                    needed: u64::MAX,
                    budget: u64::MAX,
                    component: component.spec_name(),
                },
            )
        } else {
            accounting.charged(Self::bytes_for(capacity as int) as u64, component)
        }
    }

    /// What growth to `capacity` costs while the old allocation is still held.
    pub open spec fn growth(self, accounting: Accounting, capacity: usize) -> Result<
        (u64, u64),
        StoreError,
    > {
        if capacity <= self.capacity {
            Ok((accounting.resident, accounting.temporary))
        } else {
            Self::cost(accounting, self.component, capacity)
        }
    }

    /// Grows to `capacity`: the replacement is charged while the old
    /// allocation is still held, and a refusal leaves the old one as it was.
    pub fn try_reserve_total(&mut self, accounting: &mut Accounting, capacity: usize) -> (result:
        Result<(), StoreError>)
        requires
            old(self).well_formed(),
            old(self).covered_by(*old(accounting)),
        ensures
            final(self).well_formed(),
            final(self).items@ == old(self).items@,
            final(self).component == old(self).component,
            final(accounting).budgets == old(accounting).budgets,
            match old(self).growth(*old(accounting), capacity) {
                Ok(_) => {
                    &&& result is Ok
                    &&& final(self).capacity == if capacity <= old(self).capacity {
                        old(self).capacity
                    } else {
                        capacity
                    }
                    &&& final(accounting).resident == old(accounting).resident - old(self).bytes
                        + final(self).bytes
                    &&& final(accounting).temporary == old(accounting).temporary
                        + Accounting::temporary_part(
                        final(self).bytes - old(self).bytes,
                        old(self).component,
                    )
                },
                Err(error) => {
                    &&& result == Err::<(), StoreError>(error)
                    &&& *final(self) == *old(self)
                    &&& *final(accounting) == *old(accounting)
                },
            },
    {
        if capacity <= self.capacity {
            return Ok(());
        }
        let size: usize = std::mem::size_of::<T>();
        assert((capacity as int) * (size as int) <= u64::MAX * u64::MAX) by (nonlinear_arith)
            requires
                0 <= capacity <= u64::MAX,
                0 <= size <= u64::MAX,
        ;
        let total: u128 = (capacity as u128) * (size as u128);
        if total > u64::MAX as u128 {
            return Err(
                StoreError::BudgetExceeded {
                    needed: u64::MAX,
                    budget: u64::MAX,
                    component: self.component.name(),
                },
            );
        }
        let bytes: u64 = total as u64;
        match accounting.charge(bytes, self.component) {
            Ok(_) => {},
            Err(error) => {
                return Err(error);
            },
        }
        let mut replacement: Vec<T> = Vec::with_capacity(capacity);
        replacement.append(&mut self.items);
        self.items = replacement;
        accounting.release(self.bytes, self.component);
        self.capacity = capacity;
        self.bytes = bytes;
        Ok(())
    }

    /// Adds one item; a full buffer refuses it.
    pub fn push(&mut self, item: T) -> (result: Result<(), StoreError>)
        requires
            old(self).well_formed(),
        ensures
            final(self).well_formed(),
            final(self).capacity == old(self).capacity,
            final(self).bytes == old(self).bytes,
            final(self).component == old(self).component,
            if old(self).items@.len() < old(self).capacity {
                result is Ok && final(self).items@ == old(self).items@.push(item)
            } else {
                &&& final(self).items@ == old(self).items@
                &&& result == Err::<(), StoreError>(
                    StoreError::AllocationFailed {
                        needed: old(self).bytes,
                        component: old(self).component.spec_name(),
                    },
                )
            },
    {
        if self.items.len() < self.capacity {
            self.items.push(item);
            Ok(())
        } else {
            Err(
                StoreError::AllocationFailed {
                    needed: self.bytes,
                    component: self.component.name(),
                },
            )
        }
    }

    /// Drops the buffer and gives its charge back.
    pub fn release(self, accounting: &mut Accounting)
        requires
            self.covered_by(*old(accounting)),
        ensures
            final(accounting).budgets == old(accounting).budgets,
            final(accounting).resident == old(accounting).resident - self.bytes,
            final(accounting).temporary == old(accounting).temporary - Accounting::temporary_part(
                self.bytes as int,
                self.component,
            ),
    {
        accounting.release(self.bytes, self.component);
    }
}

/// A charge that can be changed.
#[derive(Clone, Copy, Debug, PartialEq, Eq, Structural)]
pub struct AccountedCounter {
    pub bytes: u64,
    pub component: AllocationComponent,
}

impl AccountedCounter {
    /// The totals hold at least what this counter was charged.
    pub open spec fn covered_by(self, accounting: Accounting) -> bool {
        &&& self.bytes <= accounting.resident
        &&& self.component.spec_is_temporary() ==> self.bytes <= accounting.temporary
    }

    /// A counter without charge.
    pub fn new(component: AllocationComponent) -> (counter: AccountedCounter)
        ensures
            counter == (AccountedCounter { bytes: 0, component }),
    {
        AccountedCounter { bytes: 0, component }
    }

    /// Whether the ceilings allow a change of the charge to `bytes`.
    pub open spec fn change(self, accounting: Accounting, bytes: u64) -> Result<(), StoreError> {
        if bytes <= self.bytes {
            Ok(())
        } else {
            match accounting.charged((bytes - self.bytes) as u64, self.component) {
                Ok(_) => Ok(()),
                Err(error) => Err(error),
            }
        }
    }

    /// Changes the charge to `bytes`; a refusal changes nothing.
    pub fn set(&mut self, accounting: &mut Accounting, bytes: u64) -> (result: Result<
        (),
        StoreError,
    >)
        requires
            old(self).covered_by(*old(accounting)),
        ensures
            result == old(self).change(*old(accounting), bytes),
            final(self).component == old(self).component,
            final(self).bytes == if result is Ok {
                bytes
            } else {
                old(self).bytes
            },
            final(self).covered_by(*final(accounting)),
            final(accounting).budgets == old(accounting).budgets,
            final(accounting).resident == old(accounting).resident - old(self).bytes + final(
                self
            ).bytes,
            final(accounting).temporary == old(accounting).temporary + Accounting::temporary_part(
                final(self).bytes - old(self).bytes,
                old(self).component,
            ),
    {
        if bytes <= self.bytes {
            accounting.release(self.bytes - bytes, self.component);
        } else {
            match accounting.charge(bytes - self.bytes, self.component) {
                Ok(_) => {},
                Err(error) => {
                    return Err(error);
                },
            }
        }
        self.bytes = bytes;
        Ok(())
    }

    /// Gives the charge back.
    pub fn release(self, accounting: &mut Accounting)
        requires
            self.covered_by(*old(accounting)),
        ensures
            final(accounting).budgets == old(accounting).budgets,
            final(accounting).resident == old(accounting).resident - self.bytes,
            final(accounting).temporary == old(accounting).temporary - Accounting::temporary_part(
                self.bytes as int,
                self.component,
            ),
    {
        accounting.release(self.bytes, self.component);
    }
}

} // verus!
