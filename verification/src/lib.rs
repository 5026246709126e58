//! A deterministic ledger-replay engine: given an ordered stream of
//! transaction events (deposits, withdrawals, disputes, resolves,
//! chargebacks), it computes the final balance state of every account.
//!
//! Monetary amounts are fixed-point integers counted in ten-thousandths of a
//! currency unit, so every balance is exact to four decimal places.

pub mod laws;
pub mod records;
pub mod transaction;
