use streampay::errors::StreamPayError;
use streampay::ledger::Ledger;
use streampay::math::calculate_earnings;

const OWNER: u64 = 1;
const WORKER: u64 = 2;
const STRANGER: u64 = 3;

fn ledger_with_company() -> Ledger {
    let mut l = Ledger::new();
    l.initialize_company(OWNER, "Globex".to_string(), 50).unwrap();
    l
}

fn ledger_with_earned_balance(balance_hours: u64, rate: u64) -> Ledger {
    let mut l = ledger_with_company();
    l.add_employee(OWNER, OWNER, WORKER, rate, 60).unwrap();
    l.clock_in(OWNER, WORKER, WORKER, 0).unwrap();
    l.clock_out(OWNER, WORKER, WORKER, balance_hours * 3600).unwrap();
    l
}

#[test]
fn company_is_created_once() {
    let mut l = Ledger::new();
    let ev = l.initialize_company(OWNER, "Globex".to_string(), 50).unwrap();
    assert_eq!(ev.company, OWNER);
    assert_eq!(ev.owner, OWNER);
    assert_eq!(ev.company_name, "Globex");
    assert_eq!(ev.timestamp, 50);

    let c = l.get_company(OWNER).unwrap();
    assert_eq!(c.owner, OWNER);
    assert_eq!(c.total_deposited, 0);
    assert_eq!(c.employee_count, 0);
    assert_eq!(c.company_name, "Globex");
    assert_eq!(c.created_at, 50);

    let again = l.initialize_company(OWNER, "Globex Two".to_string(), 51);
    assert_eq!(again.unwrap_err(), StreamPayError::AlreadyExists);
}

#[test]
fn empty_company_name_is_rejected() {
    let mut l = Ledger::new();
    let r = l.initialize_company(OWNER, String::new(), 50);
    assert_eq!(r.unwrap_err(), StreamPayError::InvalidCompanyName);
    assert!(l.get_company(OWNER).is_none());
}

#[test]
fn long_company_name_is_rejected_at_33_characters() {
    let mut l = Ledger::new();
    let r = l.initialize_company(OWNER, "x".repeat(33), 50);
    assert_eq!(r.unwrap_err(), StreamPayError::CompanyNameTooLong);

    // 32 characters is still accepted.
    l.initialize_company(OWNER, "x".repeat(32), 50).unwrap();
}

#[test]
fn add_employee_counts_and_reports() {
    let mut l = ledger_with_company();
    let ev = l.add_employee(OWNER, OWNER, WORKER, 1500, 60).unwrap();
    assert_eq!(ev.company, OWNER);
    assert_eq!(ev.employee, WORKER);
    assert_eq!(ev.hourly_rate, 1500);
    assert_eq!(ev.timestamp, 60);

    assert_eq!(l.get_company(OWNER).unwrap().employee_count, 1);
    let e = l.get_employee(OWNER, WORKER).unwrap();
    assert_eq!(e.company, OWNER);
    assert_eq!(e.employee, WORKER);
    assert_eq!(e.hourly_rate, 1500);
    assert_eq!(e.total_earned, 0);
    assert_eq!(e.total_withdrawn, 0);
    assert!(!e.is_clocked_in);

    l.add_employee(OWNER, OWNER, STRANGER, 800, 61).unwrap();
    assert_eq!(l.get_company(OWNER).unwrap().employee_count, 2);
}

#[test]
fn add_employee_requires_the_owner() {
    let mut l = ledger_with_company();
    let r = l.add_employee(OWNER, STRANGER, WORKER, 1500, 60);
    assert_eq!(r.unwrap_err(), StreamPayError::UnauthorizedCompanyAccess);
    assert_eq!(l.get_company(OWNER).unwrap().employee_count, 0);
}

#[test]
fn add_employee_zero_rate_is_rejected() {
    let mut l = ledger_with_company();
    let r = l.add_employee(OWNER, OWNER, WORKER, 0, 60);
    assert_eq!(r.unwrap_err(), StreamPayError::InvalidHourlyRate);
    assert!(l.get_employee(OWNER, WORKER).is_none());
}

#[test]
fn add_employee_twice_is_rejected() {
    let mut l = ledger_with_company();
    l.add_employee(OWNER, OWNER, WORKER, 1500, 60).unwrap();
    let r = l.add_employee(OWNER, OWNER, WORKER, 2000, 61);
    assert_eq!(r.unwrap_err(), StreamPayError::AlreadyExists);
    assert_eq!(l.get_employee(OWNER, WORKER).unwrap().hourly_rate, 1500);
    assert_eq!(l.get_company(OWNER).unwrap().employee_count, 1);
}

#[test]
fn add_employee_to_unknown_company_fails() {
    let mut l = Ledger::new();
    let r = l.add_employee(OWNER, OWNER, WORKER, 1500, 60);
    assert_eq!(r.unwrap_err(), StreamPayError::NotFound);
}

#[test]
fn deposits_accumulate_and_never_decrease() {
    let mut l = ledger_with_company();
    let ev = l.deposit_payroll(OWNER, OWNER, 5000, 70).unwrap();
    assert_eq!(ev.amount, 5000);
    assert_eq!(ev.new_balance, 5000);
    assert_eq!(l.get_company(OWNER).unwrap().total_deposited, 5000);

    let ev = l.deposit_payroll(OWNER, OWNER, 3000, 71).unwrap();
    assert_eq!(ev.new_balance, 8000);
    assert_eq!(l.get_company(OWNER).unwrap().total_deposited, 8000);
}

#[test]
fn deposit_zero_is_rejected() {
    let mut l = ledger_with_company();
    let r = l.deposit_payroll(OWNER, OWNER, 0, 70);
    assert_eq!(r.unwrap_err(), StreamPayError::InvalidDepositAmount);
    assert_eq!(l.get_company(OWNER).unwrap().total_deposited, 0);
}

#[test]
fn deposit_requires_the_owner() {
    let mut l = ledger_with_company();
    let r = l.deposit_payroll(OWNER, STRANGER, 5000, 70);
    assert_eq!(r.unwrap_err(), StreamPayError::UnauthorizedCompanyAccess);
    assert_eq!(l.get_company(OWNER).unwrap().total_deposited, 0);
}

#[test]
fn deposit_overflow_is_rejected() {
    let mut l = ledger_with_company();
    l.deposit_payroll(OWNER, OWNER, u64::MAX, 70).unwrap();
    let r = l.deposit_payroll(OWNER, OWNER, 1, 71);
    assert_eq!(r.unwrap_err(), StreamPayError::Overflow);
    assert_eq!(l.get_company(OWNER).unwrap().total_deposited, u64::MAX);
}

#[test]
fn deposit_to_unknown_company_fails() {
    let mut l = Ledger::new();
    let r = l.deposit_payroll(OWNER, OWNER, 5000, 70);
    assert_eq!(r.unwrap_err(), StreamPayError::NotFound);
}

#[test]
fn withdraw_down_to_zero_then_fail() {
    // One hour at rate 1000 earns 1000.
    let mut l = ledger_with_earned_balance(1, 1000);
    assert_eq!(l.get_available_balance(OWNER, WORKER, WORKER).unwrap(), 1000);

    let ev = l.withdraw_earnings(OWNER, WORKER, WORKER, 1000, 80).unwrap();
    assert_eq!(ev.amount, 1000);
    assert_eq!(ev.remaining_balance, 0);
    assert_eq!(l.get_available_balance(OWNER, WORKER, WORKER).unwrap(), 0);

    let r = l.withdraw_earnings(OWNER, WORKER, WORKER, 1, 81);
    assert_eq!(r.unwrap_err(), StreamPayError::InsufficientBalance);
    assert_eq!(l.get_employee(OWNER, WORKER).unwrap().total_withdrawn, 1000);
}

#[test]
fn withdraw_partial_keeps_the_rest_available() {
    let mut l = ledger_with_earned_balance(2, 500);
    let ev = l.withdraw_earnings(OWNER, WORKER, WORKER, 300, 80).unwrap();
    assert_eq!(ev.remaining_balance, 700);
    let e = l.get_employee(OWNER, WORKER).unwrap();
    assert_eq!(e.total_withdrawn, 300);
    assert_eq!(e.total_earned, 1000);
    assert_eq!(l.get_available_balance(OWNER, WORKER, WORKER).unwrap(), 700);
}

#[test]
fn withdraw_zero_is_rejected() {
    let mut l = ledger_with_earned_balance(1, 1000);
    let r = l.withdraw_earnings(OWNER, WORKER, WORKER, 0, 80);
    assert_eq!(r.unwrap_err(), StreamPayError::InvalidWithdrawAmount);
    assert_eq!(l.get_employee(OWNER, WORKER).unwrap().total_withdrawn, 0);
}

#[test]
fn withdraw_requires_the_employee() {
    let mut l = ledger_with_earned_balance(1, 1000);
    let r = l.withdraw_earnings(OWNER, WORKER, OWNER, 100, 80);
    assert_eq!(r.unwrap_err(), StreamPayError::UnauthorizedEmployeeAccess);
    assert_eq!(l.get_employee(OWNER, WORKER).unwrap().total_withdrawn, 0);
}

#[test]
fn withdraw_from_unknown_employee_fails() {
    let mut l = ledger_with_company();
    let r = l.withdraw_earnings(OWNER, WORKER, WORKER, 100, 80);
    assert_eq!(r.unwrap_err(), StreamPayError::NotFound);
}

#[test]
fn joint_overdraw_lets_at_most_one_withdrawal_through() {
    // Each 600 fits the balance of 1000; together they exceed it. The
    // store serializes the two operations, so whichever runs second
    // must fail and the balance never goes negative.
    let mut l = ledger_with_earned_balance(1, 1000);
    l.withdraw_earnings(OWNER, WORKER, WORKER, 600, 80).unwrap();
    let r = l.withdraw_earnings(OWNER, WORKER, WORKER, 600, 81);
    assert_eq!(r.unwrap_err(), StreamPayError::InsufficientBalance);
    let e = l.get_employee(OWNER, WORKER).unwrap();
    assert_eq!(e.total_withdrawn, 600);
    assert!(e.total_withdrawn <= e.total_earned);
}

#[test]
fn balance_read_is_guarded() {
    let l = ledger_with_company();
    let r = l.get_available_balance(OWNER, WORKER, WORKER);
    assert_eq!(r.unwrap_err(), StreamPayError::NotFound);

    let l = ledger_with_earned_balance(1, 1000);
    let r = l.get_available_balance(OWNER, WORKER, STRANGER);
    assert_eq!(r.unwrap_err(), StreamPayError::UnauthorizedEmployeeAccess);
    assert_eq!(l.get_available_balance(OWNER, WORKER, WORKER).unwrap(), 1000);
}

#[test]
fn earnings_are_truncated_toward_zero() {
    // 999 units per hour for 0.01 h: 9.99 units, paid as 9.
    assert_eq!(calculate_earnings(999, 1).unwrap(), 9);
    // 101 units per hour for 0.01 h: 1.01 units, paid as 1.
    assert_eq!(calculate_earnings(101, 1).unwrap(), 1);
    // Exact multiples lose nothing.
    assert_eq!(calculate_earnings(1000, 100).unwrap(), 1000);
    assert_eq!(calculate_earnings(0, 100).unwrap(), 0);
}

#[test]
fn earnings_overflow_is_reported() {
    let r = calculate_earnings(u64::MAX, 200);
    assert_eq!(r.unwrap_err(), StreamPayError::Overflow);
    // The widest product that still fits is accepted.
    assert_eq!(calculate_earnings(u64::MAX, 100).unwrap(), u64::MAX);
}
