//! Pre-allocation resident and temporary byte ceilings.

use crate::error::StoreError;
use vstd::prelude::*;

verus! {

/// Ceilings for live engine-owned bytes.
#[derive(Clone, Copy, Debug, PartialEq, Eq, Structural)]
pub struct Budgets {
    pub resident: u64,
    pub temporary: u64,
}

impl Budgets {
    /// The totals after one more allocation, or the ceiling that it would pass.
    /// The sums are checked before the ceilings, and the temporary ceiling
    /// before the resident one.
    pub open spec fn outcome(
        self,
        resident_now: u64,
        temporary_now: u64,
        bytes: u64,
        component: &'static str,
        is_temporary: bool,
    ) -> Result<(u64, u64), StoreError> {
        let resident = resident_now + bytes;
        let temporary = if is_temporary {
            temporary_now + bytes
        } else {
            temporary_now as int
        };
        if resident > u64::MAX {
            Err(StoreError::BudgetExceeded { needed: u64::MAX, budget: self.resident, component })
        } else if temporary > u64::MAX {
            Err(StoreError::BudgetExceeded { needed: u64::MAX, budget: self.temporary, component })
        } else if is_temporary && temporary > self.temporary {
            Err(
                StoreError::BudgetExceeded {
                    needed: temporary as u64,
                    budget: self.temporary,
                    component,
                },
            )
        } else if resident > self.resident {
            Err(
                StoreError::BudgetExceeded {
                    needed: resident as u64,
                    budget: self.resident,
                    component,
                },
            )
        } else {
            Ok((resident as u64, temporary as u64))
        }
    }

    /// Ceilings for resident and temporary bytes.
    pub fn new(resident: u64, temporary: u64) -> (budgets: Budgets)
        ensures
            budgets == (Budgets { resident, temporary }),
    {
        Budgets { resident, temporary }
    }

    /// Decides one allocation before it is made.
    pub fn check(
        self,
        resident_now: u64,
        temporary_now: u64,
        bytes: u64,
        component: &'static str,
        is_temporary: bool,
    ) -> (result: Result<(u64, u64), StoreError>)
        ensures
            result == self.outcome(resident_now, temporary_now, bytes, component, is_temporary),
    {
        let needed_resident: u64 = match resident_now.checked_add(bytes) {
            Some(needed) => needed,
            None => {
                return Err(
                    StoreError::BudgetExceeded {
                        needed: u64::MAX,
                        budget: self.resident,
                        component,
                    },
                );
            },
        };
        let needed_temporary: u64 = if is_temporary {
            match temporary_now.checked_add(bytes) {
                Some(needed) => needed,
                None => {
                    return Err(
                        StoreError::BudgetExceeded {
                            needed: u64::MAX,
                            budget: self.temporary,
                            component,
                        },
                    );
                },
            }
        } else {
            temporary_now
        };
        if is_temporary && needed_temporary > self.temporary {
            return Err(
                StoreError::BudgetExceeded {
                    needed: needed_temporary,
                    budget: self.temporary,
                    component,
                },
            );
        }
        if needed_resident > self.resident {
            return Err(
                StoreError::BudgetExceeded {
                    needed: needed_resident,
                    budget: self.resident,
                    component,
                },
            );
        }
        Ok((needed_resident, needed_temporary))
    }
}

/// An accepted allocation leaves both totals within their ceilings, as long as
/// they were within them before.
pub proof fn lemma_accepted_totals_stay_within_ceilings(
    budgets: Budgets,
    resident_now: u64,
    temporary_now: u64,
    bytes: u64,
    component: &'static str,
    is_temporary: bool,
)
    requires
        temporary_now <= budgets.temporary,
    ensures
        budgets.outcome(resident_now, temporary_now, bytes, component, is_temporary) matches Ok(
            totals,
        ) ==> {
            &&& totals.0 <= budgets.resident
            &&& totals.1 <= budgets.temporary
            &&& totals.0 == resident_now + bytes
            &&& totals.1 == temporary_now + if is_temporary {
                bytes as int
            } else {
                0
            }
        },
{
}

/// A refusal names the total that would have been needed and a ceiling below
/// it, unless the total itself does not fit.
pub proof fn lemma_refusal_names_the_passed_ceiling(
    budgets: Budgets,
    resident_now: u64,
    temporary_now: u64,
    bytes: u64,
    component: &'static str,
    is_temporary: bool,
)
    ensures
        budgets.outcome(resident_now, temporary_now, bytes, component, is_temporary) matches Err(
            error,
        ) ==> error matches StoreError::BudgetExceeded { needed, budget, component: named } && named
            == component && (needed > budget || needed == u64::MAX),
{
}

} // verus!
