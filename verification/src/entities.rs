use vstd::prelude::*;

verus! {

/// An authenticated identity (a company owner or an employee).
/// Signature verification is an external collaborator: the ledger only
/// consumes the fact "the caller is identity X, proven", so an identity
/// is an opaque key that supports equality.
pub type AccountId = u64;

/// A nonnegative unix timestamp in seconds, supplied per operation by an
/// external clock source.
pub type Timestamp = u64;

/// A company: the payroll pool that employs and pays employees.
/// Keyed by its owner's identity; one company per owner.
pub struct Company {
    /// The identity that created the company and may deposit funds and
    /// add employees.
    pub owner: AccountId,
    /// Sum of all successful deposits, in monetary units. Monotonic:
    /// withdrawals debit employee records, never this field.
    pub total_deposited: u64,
    /// Number of employee records that reference this company.
    pub employee_count: u32,
    /// Human-readable name, 1 to 32 characters.
    pub company_name: String,
    /// When the company was created.
    pub created_at: Timestamp,
}

/// An employment agreement between one company and one person, together
/// with the person's accrued balances. Keyed by (company, employee).
#[derive(Clone, Copy, Debug, PartialEq, Eq, Structural)]
pub struct Employee {
    /// Key of the owning company (its owner's identity).
    pub company: AccountId,
    /// The employee's own identity.
    pub employee: AccountId,
    /// Monetary units per hour; always positive.
    pub hourly_rate: u64,
    /// Cumulative hours worked, in hundredths of an hour.
    pub total_hours_worked: u64,
    /// Timestamp of the most recent clock-in.
    pub last_clock_in: Timestamp,
    /// Whether a work session is currently open.
    pub is_clocked_in: bool,
    /// Cumulative amount withdrawn; never exceeds `total_earned`.
    pub total_withdrawn: u64,
    /// Cumulative amount earned from closed sessions.
    pub total_earned: u64,
    /// When the record was created.
    pub created_at: Timestamp,
    /// Number of sessions ever opened; the next session's sequence number.
    pub total_sessions_count: u64,
}

/// One span of work. Created open by a clock-in, closed exactly once by
/// a clock-out, immutable thereafter. Keyed by (company, employee,
/// session_id): sessions are append-only and a sequence number is never
/// reused for the same employee record.
#[derive(Clone, Copy, Debug, PartialEq, Eq, Structural)]
pub struct WorkSession {
    /// Key of the company whose employee record owns this session.
    pub company: AccountId,
    /// The employee's identity.
    pub employee: AccountId,
    /// When the session was opened.
    pub clock_in_time: Timestamp,
    /// When the session was closed; zero while the session is open.
    pub clock_out_time: Timestamp,
    /// Hours worked, in hundredths of an hour; zero while open.
    pub hours_worked: u64,
    /// Amount earned for this session; zero while open.
    pub amount_earned: u64,
    /// Sequence number: the owning record's session count at creation.
    pub session_id: u64,
}

} // verus!
