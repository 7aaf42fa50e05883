use vstd::prelude::*;
use crate::entities::Employee;
use crate::ledger::{count_employees_of, Ledger};

verus! {

/// In every well-formed ledger, every employee record has
/// `total_withdrawn <= total_earned`: earnings can be withdrawn at
/// most once, and the available balance `total_earned -
/// total_withdrawn` never underflows.
pub proof fn lemma_withdrawn_never_exceeds_earned(l: Ledger, i: int)
    requires
        l.wf(),
        0 <= i < l.employees@.len(),
    ensures
        l.employees@[i].total_withdrawn <= l.employees@[i].total_earned,
{
    assert(l.employee_valid(l.employees@[i]));
}

/// In every well-formed ledger, each company's `employee_count` equals
/// the number of employee records that reference that company.
pub proof fn lemma_employee_count_matches_records(l: Ledger, i: int)
    requires
        l.wf(),
        0 <= i < l.companies@.len(),
    ensures
        l.companies@[i].employee_count == count_employees_of(
            l.employees@,
            l.companies@[i].owner,
        ),
{
}

/// Two withdrawals against one employee record cannot jointly overdraw
/// it. The ledger serializes operations per entity store (every
/// operation takes the store exclusively), so two concurrent
/// withdrawals run in some order; if each amount fits the available
/// balance but their sum exceeds it, then after the first succeeds the
/// second exceeds the remaining balance, and by the contract of
/// `withdraw_earnings` it fails with `InsufficientBalance` and changes
/// nothing. At most one of the two can succeed.
pub proof fn lemma_second_withdrawal_fails(e: Employee, first: u64, second: u64)
    requires
        e.total_withdrawn <= e.total_earned,
        first > 0,
        second > 0,
        first <= e.total_earned - e.total_withdrawn,
        second <= e.total_earned - e.total_withdrawn,
        first + second > e.total_earned - e.total_withdrawn,
    ensures
        second > e.total_earned - (e.total_withdrawn + first),
{
}

} // verus!
