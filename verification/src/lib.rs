//! Ledger Oxide: the verified core of a personal finance ledger.
//!
//! Bank statements in OFX/QFX form are parsed into transactions, bank
//! entries are split across accounts, and projected entries (one-time or
//! recurring) are merged with real bank entries into a dated forecast.
//! The storage and GraphQL layer stands outside this crate; it hands the
//! functions here plain values and acts on what they return.

pub mod accounts;
pub mod bank_entries;
pub mod bank_imports;
pub mod date;
pub mod ofx;
pub mod projected_entries;
pub mod schema;
pub mod sorting;
pub mod text;
