//! A token-vesting engine: schedule calculation, claim settlement, and the
//! funding / release / claim lifecycle of a vesting pool.
//!
//! The engine is pure with respect to its environment: the current time, the
//! caller's identity and account balances are passed in as plain values, and
//! the engine only computes amounts and state transitions.  Moving funds,
//! reading the clock and persisting accounts are the host's business.

pub mod account;
pub mod arith;
pub mod errors;
pub mod evaluate;
pub mod frac;
pub mod schedule;
