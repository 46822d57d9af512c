use zeppelin_embed::accounting::{Accounted, AccountedCounter, Accounting, AllocationComponent};
use zeppelin_embed::budget::Budgets;
use zeppelin_embed::error::StoreError;

#[test]
fn a_charge_inside_both_ceilings_is_accepted() {
    let budgets = Budgets::new(100, 40);
    assert_eq!(budgets.check(60, 10, 30, "temporary", true), Ok((90, 40)));
    assert_eq!(budgets.check(60, 10, 40, "cache", false), Ok((100, 10)));
}

#[test]
fn the_temporary_ceiling_is_named_before_the_resident_one() {
    let budgets = Budgets::new(100, 40);
    assert_eq!(
        budgets.check(99, 39, 2, "temporary", true),
        Err(StoreError::BudgetExceeded {
            needed: 41,
            budget: 40,
            component: "temporary"
        })
    );
    assert_eq!(
        budgets.check(99, 39, 2, "cache", false),
        Err(StoreError::BudgetExceeded {
            needed: 101,
            budget: 100,
            component: "cache"
        })
    );
}

#[test]
fn an_overflowing_total_needs_everything() {
    let budgets = Budgets::new(7, 5);
    assert_eq!(
        budgets.check(u64::MAX, 0, 1, "wal", false),
        Err(StoreError::BudgetExceeded {
            needed: u64::MAX,
            budget: 7,
            component: "wal"
        })
    );
    assert_eq!(
        budgets.check(0, u64::MAX, 1, "wal", true),
        Err(StoreError::BudgetExceeded {
            needed: u64::MAX,
            budget: 5,
            component: "wal"
        })
    );
}

#[test]
fn a_refused_charge_changes_nothing_and_a_release_undoes_a_charge() {
    let mut accounting = Accounting::new(10, 4);
    accounting
        .charge(4, AllocationComponent::Temporary)
        .expect("fits");
    assert!(accounting
        .charge(1, AllocationComponent::Temporary)
        .is_err());
    let audit = accounting.audit();
    assert_eq!((audit.resident_bytes, audit.temporary_bytes), (4, 4));
    accounting
        .charge(6, AllocationComponent::Snapshot)
        .expect("resident room");
    let audit = accounting.audit();
    assert_eq!((audit.resident_bytes, audit.temporary_bytes), (10, 4));
    accounting.release(6, AllocationComponent::Snapshot);
    accounting.release(4, AllocationComponent::Temporary);
    let audit = accounting.audit();
    assert_eq!((audit.resident_bytes, audit.temporary_bytes), (0, 0));
}

#[test]
fn a_full_buffer_refuses_an_item() {
    let mut accounting = Accounting::new(u64::MAX, u64::MAX);
    let mut buffer = Accounted::<u32>::unaccounted_empty(AllocationComponent::Temporary);
    buffer
        .try_reserve_total(&mut accounting, 2)
        .expect("two items");
    assert_eq!(buffer.resident_bytes(), 8);
    buffer.push(1).expect("first");
    buffer.push(2).expect("second");
    assert_eq!(
        buffer.push(3),
        Err(StoreError::AllocationFailed {
            needed: 8,
            component: "temporary"
        })
    );
    assert_eq!(buffer.as_slice(), &[1, 2]);
    buffer.clear();
    assert!(buffer.is_empty());
    assert_eq!(buffer.capacity(), 2);
    assert_eq!(buffer.len(), 0);
    buffer.release(&mut accounting);
    assert_eq!(accounting.audit().temporary_bytes, 0);
}

#[test]
fn a_counter_moves_its_charge_both_ways() {
    let mut accounting = Accounting::new(100, 20);
    let mut counter = AccountedCounter::new(AllocationComponent::Temporary);
    counter.set(&mut accounting, 15).expect("fits");
    assert_eq!(accounting.audit().temporary_bytes, 15);
    assert_eq!(
        counter.set(&mut accounting, 21),
        Err(StoreError::BudgetExceeded {
            needed: 21,
            budget: 20,
            component: "temporary"
        })
    );
    assert_eq!(counter.bytes, 15);
    counter.set(&mut accounting, 3).expect("smaller");
    assert_eq!(accounting.audit().temporary_bytes, 3);
    counter.release(&mut accounting);
    assert_eq!(accounting.audit().resident_bytes, 0);
}

#[test]
fn every_component_has_its_name() {
    assert_eq!(AllocationComponent::Snapshot.name(), "snapshot");
    assert_eq!(AllocationComponent::QueryPool.name(), "query pool");
    assert_eq!(AllocationComponent::Cache.name(), "cache");
    assert_eq!(AllocationComponent::Temporary.name(), "temporary");
}
