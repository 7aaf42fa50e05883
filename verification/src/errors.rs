use vstd::prelude::*;

verus! {

/// Every way an operation on the ledger can fail. Validation errors
/// (`InvalidCompanyName`, `CompanyNameTooLong`, `InvalidHourlyRate`,
/// `InvalidDepositAmount`, `InvalidWithdrawAmount`, `InvalidClockOutTime`)
/// reject bad inputs; state conflicts (`AlreadyClockedIn`, `NotClockedIn`,
/// `AlreadyExists`, `NotFound`) reject operations that do not fit the
/// current state; authorization errors reject a caller who is not the
/// required identity; `Overflow` and `InsufficientBalance` are arithmetic
/// failures. No failed operation changes any state.
#[derive(Clone, Copy, Debug, PartialEq, Eq, Structural)]
pub enum StreamPayError {
    /// The company name is empty.
    InvalidCompanyName,
    /// The company name is longer than 32 characters.
    CompanyNameTooLong,
    /// The hourly rate is zero.
    InvalidHourlyRate,
    /// The deposit amount is zero.
    InvalidDepositAmount,
    /// The employee is already clocked in.
    AlreadyClockedIn,
    /// The employee is not clocked in.
    NotClockedIn,
    /// The clock-out time is not after the clock-in time.
    InvalidClockOutTime,
    /// The withdrawal amount is zero.
    InvalidWithdrawAmount,
    /// The withdrawal amount exceeds the available balance.
    InsufficientBalance,
    /// The caller is not the company owner.
    UnauthorizedCompanyAccess,
    /// The caller is not the employee.
    UnauthorizedEmployeeAccess,
    /// A checked arithmetic step would overflow.
    Overflow,
    /// A record with the same key already exists.
    AlreadyExists,
    /// No record with the given key exists.
    NotFound,
}

} // verus!
