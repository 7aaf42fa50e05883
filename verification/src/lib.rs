//! A payroll ledger: companies, employees, hourly wage agreements,
//! timekeeping sessions, and the earned/withdrawn balances that follow
//! from them.
//!
//! The ledger is an accounting state machine. Money may only move
//! according to time actually worked and funds actually deposited, with
//! exact integer arithmetic over monetary units and hundredths of an
//! hour. Identity verification, the wall clock, funds custody and event
//! transport are external collaborators: every operation receives an
//! already-authenticated caller identity and a current timestamp, and
//! returns the one event that describes what happened.

pub mod entities;
pub mod errors;
pub mod events;
pub mod laws;
pub mod ledger;
pub mod math;
