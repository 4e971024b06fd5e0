//! A minimal peer-replicated currency ledger.
//!
//! Blocks wrap one transaction each, are chained through SHA-256 digests of
//! their content, mined by brute-force nonce search against a difficulty
//! target, and maintain a derived table of account balances.

pub mod block;
pub mod chain;
pub mod clock;
pub mod digest;
pub mod peers;
pub mod transaction;
