use vstd::prelude::*;
use crate::entities::{AccountId, Timestamp};

verus! {

/// Emitted when a company is created.
#[derive(Clone, Debug)]
pub struct CompanyInitialized {
    pub company: AccountId,
    pub owner: AccountId,
    pub company_name: String,
    pub timestamp: Timestamp,
}

/// Emitted when an employee record is created.
#[derive(Clone, Copy, Debug, PartialEq, Eq, Structural)]
pub struct EmployeeAdded {
    pub company: AccountId,
    pub employee: AccountId,
    pub hourly_rate: u64,
    pub timestamp: Timestamp,
}

/// Emitted when funds are deposited into a company's payroll pool.
#[derive(Clone, Copy, Debug, PartialEq, Eq, Structural)]
pub struct PayrollDeposited {
    pub company: AccountId,
    pub owner: AccountId,
    pub amount: u64,
    pub new_balance: u64,
    pub timestamp: Timestamp,
}

/// Emitted when an employee opens a work session.
#[derive(Clone, Copy, Debug, PartialEq, Eq, Structural)]
pub struct EmployeeClockedIn {
    pub employee: AccountId,
    pub company: AccountId,
    pub clock_in_time: Timestamp,
    pub session_id: u64,
}

/// Emitted when an employee closes a work session.
#[derive(Clone, Copy, Debug, PartialEq, Eq, Structural)]
pub struct EmployeeClockedOut {
    pub employee: AccountId,
    pub company: AccountId,
    pub clock_out_time: Timestamp,
    pub hours_worked: u64,
    pub amount_earned: u64,
    pub session_id: u64,
}

/// Emitted when an employee withdraws earned funds.
#[derive(Clone, Copy, Debug, PartialEq, Eq, Structural)]
pub struct EarningsWithdrawn {
    pub employee: AccountId,
    pub company: AccountId,
    pub amount: u64,
    pub remaining_balance: u64,
    pub timestamp: Timestamp,
}

} // verus!
