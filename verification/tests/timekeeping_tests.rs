use streampay::errors::StreamPayError;
use streampay::ledger::Ledger;

const OWNER: u64 = 7;
const WORKER: u64 = 9;

/// A ledger with one company (owner 7) and one employee (worker 9) at
/// the given hourly rate.
fn ledger_with_employee(hourly_rate: u64) -> Ledger {
    let mut l = Ledger::new();
    l.initialize_company(OWNER, "Acme".to_string(), 5).unwrap();
    l.add_employee(OWNER, OWNER, WORKER, hourly_rate, 6).unwrap();
    l
}

#[test]
fn clock_in_creates_open_session() {
    let mut l = ledger_with_employee(1000);
    let ev = l.clock_in(OWNER, WORKER, WORKER, 100).unwrap();
    assert_eq!(ev.employee, WORKER);
    assert_eq!(ev.company, OWNER);
    assert_eq!(ev.clock_in_time, 100);
    assert_eq!(ev.session_id, 0);

    let e = l.get_employee(OWNER, WORKER).unwrap();
    assert!(e.is_clocked_in);
    assert_eq!(e.last_clock_in, 100);
    assert_eq!(e.total_sessions_count, 1);

    let s = l.get_work_session(OWNER, WORKER, 0).unwrap();
    assert_eq!(s.clock_in_time, 100);
    assert_eq!(s.clock_out_time, 0);
    assert_eq!(s.hours_worked, 0);
    assert_eq!(s.amount_earned, 0);
    assert_eq!(s.session_id, 0);
}

#[test]
fn clock_in_twice_fails_and_changes_nothing() {
    let mut l = ledger_with_employee(1000);
    l.clock_in(OWNER, WORKER, WORKER, 100).unwrap();
    let after_first = *l.get_employee(OWNER, WORKER).unwrap();
    let session_after_first = *l.get_work_session(OWNER, WORKER, 0).unwrap();

    let second = l.clock_in(OWNER, WORKER, WORKER, 200);
    assert_eq!(second.unwrap_err(), StreamPayError::AlreadyClockedIn);

    assert_eq!(*l.get_employee(OWNER, WORKER).unwrap(), after_first);
    assert_eq!(*l.get_work_session(OWNER, WORKER, 0).unwrap(), session_after_first);
    assert!(l.get_work_session(OWNER, WORKER, 1).is_none());
}

#[test]
fn clock_in_requires_the_employee() {
    let mut l = ledger_with_employee(1000);
    let r = l.clock_in(OWNER, WORKER, OWNER, 100);
    assert_eq!(r.unwrap_err(), StreamPayError::UnauthorizedEmployeeAccess);
    assert!(!l.get_employee(OWNER, WORKER).unwrap().is_clocked_in);
}

#[test]
fn clock_in_unknown_employee_fails() {
    let mut l = ledger_with_employee(1000);
    let r = l.clock_in(OWNER, 12, 12, 100);
    assert_eq!(r.unwrap_err(), StreamPayError::NotFound);
}

#[test]
fn one_hour_at_rate_1000_earns_1000() {
    let mut l = ledger_with_employee(1000);
    l.clock_in(OWNER, WORKER, WORKER, 0).unwrap();
    let ev = l.clock_out(OWNER, WORKER, WORKER, 3600).unwrap();
    assert_eq!(ev.hours_worked, 100);
    assert_eq!(ev.amount_earned, 1000);
    assert_eq!(ev.clock_out_time, 3600);
    assert_eq!(ev.session_id, 0);

    let e = l.get_employee(OWNER, WORKER).unwrap();
    assert!(!e.is_clocked_in);
    assert_eq!(e.total_hours_worked, 100);
    assert_eq!(e.total_earned, 1000);
    assert_eq!(e.total_withdrawn, 0);

    let s = l.get_work_session(OWNER, WORKER, 0).unwrap();
    assert_eq!(s.clock_in_time, 0);
    assert_eq!(s.clock_out_time, 3600);
    assert_eq!(s.hours_worked, 100);
    assert_eq!(s.amount_earned, 1000);
}

#[test]
fn round_trip_adds_exactly_the_session_totals() {
    let mut l = ledger_with_employee(250);
    l.clock_in(OWNER, WORKER, WORKER, 1000).unwrap();
    l.clock_out(OWNER, WORKER, WORKER, 1000 + 7200).unwrap();
    let first = *l.get_employee(OWNER, WORKER).unwrap();
    assert_eq!(first.total_hours_worked, 200);
    assert_eq!(first.total_earned, 500);

    l.clock_in(OWNER, WORKER, WORKER, 10_000).unwrap();
    let ev = l.clock_out(OWNER, WORKER, WORKER, 10_000 + 1800).unwrap();
    assert_eq!(ev.hours_worked, 50);
    assert_eq!(ev.amount_earned, 125);
    let e = l.get_employee(OWNER, WORKER).unwrap();
    assert_eq!(e.total_hours_worked, first.total_hours_worked + 50);
    assert_eq!(e.total_earned, first.total_earned + 125);
    assert_eq!(e.total_sessions_count, 2);
}

#[test]
fn duration_rounds_half_away_from_zero() {
    // 17 s is 0.47 hundredths: rounds down to 0.
    let mut l = ledger_with_employee(1000);
    l.clock_in(OWNER, WORKER, WORKER, 0).unwrap();
    let ev = l.clock_out(OWNER, WORKER, WORKER, 17).unwrap();
    assert_eq!(ev.hours_worked, 0);
    assert_eq!(ev.amount_earned, 0);

    // 18 s is exactly half a hundredth: rounds up to 1.
    let mut l = ledger_with_employee(1000);
    l.clock_in(OWNER, WORKER, WORKER, 0).unwrap();
    let ev = l.clock_out(OWNER, WORKER, WORKER, 18).unwrap();
    assert_eq!(ev.hours_worked, 1);
    assert_eq!(ev.amount_earned, 10);

    // 54 s is 1.5 hundredths: rounds up to 2.
    let mut l = ledger_with_employee(1000);
    l.clock_in(OWNER, WORKER, WORKER, 0).unwrap();
    let ev = l.clock_out(OWNER, WORKER, WORKER, 54).unwrap();
    assert_eq!(ev.hours_worked, 2);
    assert_eq!(ev.amount_earned, 20);

    // 50 s is 1.39 hundredths: rounds down to 1.
    let mut l = ledger_with_employee(1000);
    l.clock_in(OWNER, WORKER, WORKER, 0).unwrap();
    let ev = l.clock_out(OWNER, WORKER, WORKER, 50).unwrap();
    assert_eq!(ev.hours_worked, 1);
}

#[test]
fn clock_out_at_clock_in_time_fails() {
    let mut l = ledger_with_employee(1000);
    l.clock_in(OWNER, WORKER, WORKER, 500).unwrap();
    let r = l.clock_out(OWNER, WORKER, WORKER, 500);
    assert_eq!(r.unwrap_err(), StreamPayError::InvalidClockOutTime);
    assert!(l.get_employee(OWNER, WORKER).unwrap().is_clocked_in);
}

#[test]
fn clock_out_before_clock_in_time_fails() {
    let mut l = ledger_with_employee(1000);
    l.clock_in(OWNER, WORKER, WORKER, 500).unwrap();
    let r = l.clock_out(OWNER, WORKER, WORKER, 499);
    assert_eq!(r.unwrap_err(), StreamPayError::InvalidClockOutTime);
    let s = l.get_work_session(OWNER, WORKER, 0).unwrap();
    assert_eq!(s.clock_out_time, 0);
}

#[test]
fn clock_out_when_not_clocked_in_fails() {
    let mut l = ledger_with_employee(1000);
    let r = l.clock_out(OWNER, WORKER, WORKER, 100);
    assert_eq!(r.unwrap_err(), StreamPayError::NotClockedIn);
}

#[test]
fn clock_out_requires_the_employee() {
    let mut l = ledger_with_employee(1000);
    l.clock_in(OWNER, WORKER, WORKER, 0).unwrap();
    let r = l.clock_out(OWNER, WORKER, OWNER, 3600);
    assert_eq!(r.unwrap_err(), StreamPayError::UnauthorizedEmployeeAccess);
    assert!(l.get_employee(OWNER, WORKER).unwrap().is_clocked_in);
}

#[test]
fn clock_out_overflowing_earnings_fails() {
    let mut l = ledger_with_employee(u64::MAX);
    l.clock_in(OWNER, WORKER, WORKER, 0).unwrap();
    // Two hours at u64::MAX per hour does not fit a 64-bit amount.
    let r = l.clock_out(OWNER, WORKER, WORKER, 7200);
    assert_eq!(r.unwrap_err(), StreamPayError::Overflow);
    let e = l.get_employee(OWNER, WORKER).unwrap();
    assert!(e.is_clocked_in);
    assert_eq!(e.total_earned, 0);
}

#[test]
fn sessions_get_consecutive_ids() {
    let mut l = ledger_with_employee(100);
    for k in 0..3u64 {
        let t0 = 10_000 * k;
        let ev = l.clock_in(OWNER, WORKER, WORKER, t0).unwrap();
        assert_eq!(ev.session_id, k);
        l.clock_out(OWNER, WORKER, WORKER, t0 + 3600).unwrap();
        let s = l.get_work_session(OWNER, WORKER, k).unwrap();
        assert_eq!(s.session_id, k);
        assert_eq!(s.clock_in_time, t0);
    }
    assert_eq!(l.get_employee(OWNER, WORKER).unwrap().total_sessions_count, 3);
}
